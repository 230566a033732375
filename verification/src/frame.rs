//! JSON-RPC framing towards analyzer processes: a `Content-Length`
//! header, a blank line, then exactly that many payload bytes. Header
//! names are ASCII and case-insensitive left of the colon.

use vstd::prelude::*;

verus! {

// ---------------------------------------------------------------------------
// Decimal lengths.
// ---------------------------------------------------------------------------

/// The decimal digits of a number, most significant first.
pub open spec fn dec_bytes(n: nat) -> Seq<u8>
    decreases n,
{
    if n < 10 {
        seq![(48 + n) as u8]
    } else {
        dec_bytes(n / 10).push((48 + n % 10) as u8)
    }
}

/// The value of a digit string.
pub open spec fn dec_value(s: Seq<u8>) -> nat
    decreases s.len(),
{
    if s.len() == 0 {
        0
    } else {
        dec_value(s.drop_last()) * 10 + (s.last() - 48) as nat
    }
}

pub open spec fn all_digits(s: Seq<u8>) -> bool {
    forall|i: int| 0 <= i < s.len() ==> 48 <= #[trigger] s[i] <= 57
}

/// Reading back the digits of a number yields the number.
pub proof fn lemma_dec_round_trip(n: nat)
    ensures
        dec_value(dec_bytes(n)) == n,
        all_digits(dec_bytes(n)),
        dec_bytes(n).len() >= 1,
    decreases n,
{
    if n < 10 {
        let s1 = dec_bytes(n);
        assert((48 + n) as u8 == 48 + n);
        assert(s1.len() == 1);
        assert(s1.drop_last() =~= Seq::<u8>::empty());
        assert(dec_value(s1.drop_last()) == 0);
        assert(s1.last() == (48 + n) as u8);
        assert(dec_value(s1) == dec_value(s1.drop_last()) * 10 + (s1.last() - 48) as nat);
        assert(dec_value(dec_bytes(n)) == n);
        assert forall|i: int| 0 <= i < dec_bytes(n).len() implies 48 <= #[trigger] dec_bytes(
            n,
        )[i] <= 57 by {
            assert(dec_bytes(n)[i] == (48 + n) as u8);
        }
    } else {
        lemma_dec_round_trip(n / 10);
        assert(dec_bytes(n).drop_last() =~= dec_bytes(n / 10));
        assert((48 + n % 10) as u8 == 48 + n % 10);
        assert(dec_bytes(n).last() == (48 + n % 10) as u8);
        assert(dec_value(dec_bytes(n)) == dec_value(dec_bytes(n / 10)) * 10 + (dec_bytes(n).last()
            - 48) as nat);
        assert(dec_value(dec_bytes(n)) == (n / 10) * 10 + n % 10);
        assert forall|i: int| 0 <= i < dec_bytes(n).len() implies 48 <= #[trigger] dec_bytes(
            n,
        )[i] <= 57 by {
            if i < dec_bytes(n).len() - 1 {
                assert(dec_bytes(n)[i] == dec_bytes(n / 10)[i]);
            }
        }
    }
}

/// Parse a digit string; `None` on an empty string, a non-digit, or a
/// value above the 64-bit ceiling.
pub open spec fn parse_dec_spec(s: Seq<u8>) -> Option<u64> {
    if s.len() > 0 && all_digits(s) && dec_value(s) <= u64::MAX {
        Some(dec_value(s) as u64)
    } else {
        None
    }
}

/// Of a digit string, a longer prefix never has a smaller value.
proof fn lemma_dec_value_monotone(s: Seq<u8>, i: int)
    requires
        0 <= i <= s.len(),
        all_digits(s),
    ensures
        dec_value(s.subrange(0, i)) <= dec_value(s),
    decreases s.len() - i,
{
    if i < s.len() {
        lemma_dec_value_monotone(s, i + 1);
        assert(s.subrange(0, i + 1).drop_last() =~= s.subrange(0, i));
        assert(s.subrange(0, i + 1).last() == s[i]);
        assert(48 <= s[i] <= 57);
        assert(dec_value(s.subrange(0, i + 1)) == dec_value(s.subrange(0, i)) * 10 + (s[i] - 48));
    } else {
        assert(s.subrange(0, i) =~= s);
    }
}

/// The digits of a number, as bytes.
pub fn fmt_u64(n: u64) -> (r: Vec<u8>)
    ensures
        r@ == dec_bytes(n as nat),
{
    let mut digits_rev: Vec<u8> = Vec::new();
    let mut rest = n;
    loop
        invariant
            rest <= n,
            dec_bytes(n as nat) == dec_bytes(rest as nat) + digits_rev@.reverse(),
        ensures
            rest < 10,
            dec_bytes(n as nat) == dec_bytes(rest as nat) + digits_rev@.reverse(),
        decreases rest,
    {
        if rest < 10 {
            break;
        }
        let d = (48 + (rest % 10)) as u8;
        let ghost before = digits_rev@;
        digits_rev.push(d);
        proof {
            assert(digits_rev@.reverse() =~= seq![d] + before.reverse());
            assert(dec_bytes(rest as nat) == dec_bytes((rest / 10) as nat).push(d));
            assert(dec_bytes((rest / 10) as nat).push(d) + before.reverse() =~= dec_bytes(
                (rest / 10) as nat,
            ) + (seq![d] + before.reverse()));
        }
        rest = rest / 10;
    }
    let mut out: Vec<u8> = Vec::new();
    out.push((48 + (rest % 10)) as u8);
    proof {
        assert(rest % 10 == rest as nat);
        assert(out@ =~= dec_bytes(rest as nat));
    }
    let mut k: usize = digits_rev.len();
    while k > 0
        invariant
            k <= digits_rev@.len(),
            out@ =~= dec_bytes(rest as nat) + digits_rev@.reverse().subrange(
                0,
                digits_rev@.len() - k,
            ),
        decreases k,
    {
        out.push(digits_rev[k - 1]);
        proof {
            assert(digits_rev@.reverse()[digits_rev@.len() - k] == digits_rev@[k - 1]);
            assert(out@ =~= dec_bytes(rest as nat) + digits_rev@.reverse().subrange(
                0,
                digits_rev@.len() - (k - 1),
            ));
        }
        k = k - 1;
    }
    proof {
        assert(digits_rev@.reverse().subrange(0, digits_rev@.len() as int)
            =~= digits_rev@.reverse());
    }
    out
}

// ---------------------------------------------------------------------------
// The frame layout.
// ---------------------------------------------------------------------------

/// The bytes of `Content-Length: ` as written on the wire.
pub open spec fn header_prefix() -> Seq<u8> {
    seq![67u8, 111, 110, 116, 101, 110, 116, 45, 76, 101, 110, 103, 116, 104, 58, 32]
}

/// The bytes of `content-length:`, the case-folded header name.
pub open spec fn cl_name() -> Seq<u8> {
    seq![99u8, 111, 110, 116, 101, 110, 116, 45, 108, 101, 110, 103, 116, 104, 58]
}

/// A wire frame: the header, a blank line, then the payload.
pub open spec fn frame_spec(p: Seq<u8>) -> Seq<u8> {
    header_prefix() + dec_bytes(p.len()) + seq![13u8, 10, 13, 10] + p
}

pub open spec fn ascii_lower(b: u8) -> u8 {
    if 65 <= b <= 90 {
        (b + 32) as u8
    } else {
        b
    }
}

/// A header line naming `content-length`, case-insensitively.
pub open spec fn is_cl_line(line: Seq<u8>) -> bool {
    line.len() >= 15 && forall|k: int| 0 <= k < 15 ==> ascii_lower(#[trigger] line[k])
        == cl_name()[k]
}

/// The first position at or after `i` that is not a space.
pub open spec fn skip_spaces(line: Seq<u8>, i: int) -> int
    decreases line.len() - i,
{
    if i < 0 || i >= line.len() {
        line.len() as int
    } else if line[i] == 32 {
        skip_spaces(line, i + 1)
    } else {
        i
    }
}

/// The length value a header line carries, if it is a content-length
/// line with a readable value.
pub open spec fn cl_line_value(line: Seq<u8>) -> Option<u64> {
    if is_cl_line(line) {
        parse_dec_spec(line.subrange(skip_spaces(line, 15), line.len() as int))
    } else {
        None
    }
}

/// The canonical header line of a frame carries the payload length.
proof fn lemma_canonical_line(n: nat)
    requires
        n <= u64::MAX,
    ensures
        cl_line_value(header_prefix() + dec_bytes(n)) == Some(n as u64),
{
    let line = header_prefix() + dec_bytes(n);
    lemma_dec_round_trip(n);
    assert(is_cl_line(line)) by {
        assert forall|k: int| 0 <= k < 15 implies ascii_lower(#[trigger] line[k])
            == cl_name()[k] by {
            assert(line[k] == header_prefix()[k]);
        }
    }
    assert(line[15] == 32);
    assert(line.len() > 16 ==> line[16] == dec_bytes(n)[0]);
    assert(48 <= dec_bytes(n)[0] <= 57);
    assert(skip_spaces(line, 15) == 16) by {
        assert(skip_spaces(line, 16) == 16);
    }
    assert(line.subrange(16, line.len() as int) =~= dec_bytes(n));
}

// ---------------------------------------------------------------------------
// Encoding.
// ---------------------------------------------------------------------------

/// Frame a payload for the wire.
pub fn encode_frame(payload: &Vec<u8>) -> (r: Vec<u8>)
    ensures
        r@ == frame_spec(payload@),
{
    let mut out: Vec<u8> = Vec::new();
    out.push(67);
    out.push(111);
    out.push(110);
    out.push(116);
    out.push(101);
    out.push(110);
    out.push(116);
    out.push(45);
    out.push(76);
    out.push(101);
    out.push(110);
    out.push(103);
    out.push(116);
    out.push(104);
    out.push(58);
    out.push(32);
    proof {
        assert(out@ =~= header_prefix());
    }
    let mut digits = fmt_u64(payload.len() as u64);
    let ghost before = out@;
    out.append(&mut digits);
    proof {
        assert(out@ == before + dec_bytes(payload@.len()));
    }
    out.push(13);
    out.push(10);
    out.push(13);
    out.push(10);
    let ghost head = out@;
    proof {
        assert(head =~= header_prefix() + dec_bytes(payload@.len()) + seq![13u8, 10, 13, 10]);
    }
    let mut i: usize = 0;
    while i < payload.len()
        invariant
            i <= payload@.len(),
            out@ =~= head + payload@.subrange(0, i as int),
        decreases payload@.len() - i,
    {
        out.push(payload[i]);
        proof {
            assert(out@ =~= head + payload@.subrange(0, i + 1));
        }
        i = i + 1;
    }
    proof {
        assert(payload@.subrange(0, payload@.len() as int) =~= payload@);
        assert(out@ =~= frame_spec(payload@));
    }
    out
}

// ---------------------------------------------------------------------------
// Decoding.
// ---------------------------------------------------------------------------

/// A blank line (the header terminator) starts at `a`.
pub open spec fn term_at(b: Seq<u8>, a: int) -> bool {
    &&& 0 <= a
    &&& a + 4 <= b.len()
    &&& b[a] == 13
    &&& b[a + 1] == 10
    &&& b[a + 2] == 13
    &&& b[a + 3] == 10
}

/// Parse the value of one header line when it names content-length.
#[verifier::loop_isolation(false)]
fn parse_cl_line(buf: &Vec<u8>, start: usize, end: usize) -> (r: Option<u64>)
    requires
        start <= end <= buf@.len(),
    ensures
        r == cl_line_value(buf@.subrange(start as int, end as int)),
{
    let ghost line = buf@.subrange(start as int, end as int);
    if end - start < 15 {
        return None;
    }
    let mut k: usize = 0;
    while k < 15
        invariant
            k <= 15,
            start + 15 <= end,
            forall|j: int| 0 <= j < k ==> ascii_lower(#[trigger] line[j]) == cl_name()[j],
        decreases 15 - k,
    {
        let b = buf[start + k];
        let lowered: u8 = if 65 <= b && b <= 90 {
            b + 32
        } else {
            b
        };
        let expect: u8 = match k {
            0 => 99,
            1 => 111,
            2 => 110,
            3 => 116,
            4 => 101,
            5 => 110,
            6 => 116,
            7 => 45,
            8 => 108,
            9 => 101,
            10 => 110,
            11 => 103,
            12 => 116,
            13 => 104,
            _ => 58,
        };
        if lowered != expect {
            proof {
                assert(ascii_lower(line[k as int]) != cl_name()[k as int]);
                assert(!is_cl_line(line));
            }
            return None;
        }
        proof {
            assert(ascii_lower(line[k as int]) == cl_name()[k as int]);
        }
        k = k + 1;
    }
    proof {
        assert(is_cl_line(line));
    }
    let mut v: usize = start + 15;
    while v < end && buf[v] == 32
        invariant
            start + 15 <= v <= end,
            skip_spaces(line, 15) == skip_spaces(line, v - start),
        decreases end - v,
    {
        proof {
            assert(line[v - start] == 32);
        }
        v = v + 1;
    }
    proof {
        if v < end {
            assert(line[v - start] != 32);
        }
        assert(skip_spaces(line, v - start) == v - start);
    }
    let ghost digits = line.subrange(v - start, line.len() as int);
    if v == end {
        proof {
            assert(digits.len() == 0);
        }
        return None;
    }
    let mut value: u64 = 0;
    let mut i: usize = v;
    while i < end
        invariant
            v <= i <= end <= buf@.len(),
            start + 15 <= v,
            digits == line.subrange(v - start, line.len() as int),
            all_digits(digits.subrange(0, i - v)),
            value == dec_value(digits.subrange(0, i - v)),
        decreases end - i,
    {
        let b = buf[i];
        if b < 48 || b > 57 {
            proof {
                assert(digits[i - v] == b);
                assert(!all_digits(digits));
            }
            return None;
        }
        let d = (b - 48) as u64;
        if value > (u64::MAX - d) / 10 {
            proof {
                if all_digits(digits) {
                    let pre = digits.subrange(0, i - v + 1);
                    assert(pre.drop_last() =~= digits.subrange(0, i - v));
                    assert(pre.last() == b);
                    assert(dec_value(pre) == value * 10 + (b - 48));
                    assert(dec_value(pre) > u64::MAX);
                    lemma_dec_value_monotone(digits, i - v + 1);
                }
            }
            return None;
        }
        proof {
            let pre = digits.subrange(0, i - v + 1);
            assert(pre.drop_last() =~= digits.subrange(0, i - v));
            assert(pre.last() == b);
        }
        value = value * 10 + d;
        i = i + 1;
    }
    proof {
        assert(digits.subrange(0, (end - v) as int) =~= digits);
    }
    Some(value)
}

/// Decode one frame from the head of a buffer: the payload and how many
/// bytes the frame used. Any buffer that begins with an encoded frame —
/// alone or followed by more bytes, as on a stream — decodes to exactly
/// that frame's payload and consumes exactly that frame.
#[verifier::loop_isolation(false)]
pub fn decode_frame(buf: &Vec<u8>) -> (r: Option<(Vec<u8>, usize)>)
    ensures
        r matches Some(pc) ==> pc.1 <= buf@.len() && pc.0@ == buf@.subrange(
            pc.1 - pc.0@.len(),
            pc.1 as int,
        ),
        forall|p: Seq<u8>| #![trigger frame_prefix(buf@, p)] frame_prefix(buf@, p) ==> (r matches
            Some(pc) && pc.0@ == p && pc.1 == frame_spec(p).len()),
    {
    let n = buf.len();
    let mut h: usize = 0;
    let mut found = false;
    while !found && n - h >= 4
        invariant
            h <= n == buf@.len(),
            forall|a: int| 0 <= a < h ==> !term_at(buf@, a),
            found ==> term_at(buf@, h as int),
        decreases n - h, (if found { 0int } else { 1int }),
    {
        if buf[h] == 13 && buf[h + 1] == 10 && buf[h + 2] == 13 && buf[h + 3] == 10 {
            found = true;
        } else {
            proof {
                assert(!term_at(buf@, h as int));
            }
            h = h + 1;
        }
    }
    if !found {
        proof {
            assert forall|p: Seq<u8>| #![trigger frame_prefix(buf@, p)] !frame_prefix(
                buf@,
                p,
            ) by {
                if frame_prefix(buf@, p) {
                    lemma_prefix_term(buf@, p);
                    let hh = header_prefix().len() as int + dec_bytes(p.len()).len() as int;
                    assert(!term_at(buf@, hh));
                }
            }
        }
        return None;
    }
    let mut pos: usize = 0;
    let mut cl: Option<u64> = None;
    while pos < h
        invariant
            pos <= h + 2,
            h + 4 <= n == buf@.len(),
            term_at(buf@, h as int),
            forall|a: int| 0 <= a < h ==> !term_at(buf@, a),
            forall|p: Seq<u8>| #![trigger frame_prefix(buf@, p)] frame_prefix(buf@, p) ==> ((pos
                == 0 && cl is None) || (pos > h && cl == Some(p.len() as u64))),
        decreases h + 2 - pos,
    {
        let mut e: usize = pos;
        while !(buf[e] == 13 && buf[e + 1] == 10)
            invariant
                pos <= e <= h,
                forall|a: int| #![trigger buf@[a]] pos <= a < e ==> !(buf@[a] == 13 && buf@[a
                    + 1] == 10),
            decreases h - e,
        {
            proof {
                if e == h {
                    assert(buf@[h as int] == 13 && buf@[h + 1] == 10);
                    assert(false);
                }
            }
            e = e + 1;
        }
        let parsed = parse_cl_line(buf, pos, e);
        if let Some(value) = parsed {
            cl = Some(value);
        }
        proof {
            assert forall|p: Seq<u8>| #![trigger frame_prefix(buf@, p)] frame_prefix(buf@, p)
                implies (e == h && cl == Some(p.len() as u64)) by {
                lemma_prefix_structure(buf@, p, h as int, pos as int, e as int);
                assert(parsed == cl_line_value(buf@.subrange(pos as int, e as int)));
            }
        }
        pos = e + 2;
    }
    match cl {
        Some(len_value) => {
            if len_value <= (n - h - 4) as u64 {
                let len_usize = len_value as usize;
                let start = h + 4;
                let mut payload: Vec<u8> = Vec::new();
                let mut k: usize = 0;
                while k < len_usize
                    invariant
                        k <= len_usize,
                        h + 4 + len_usize <= n == buf@.len(),
                        payload@ =~= buf@.subrange(h + 4, h + 4 + k),
                    decreases len_usize - k,
                {
                    payload.push(buf[start + k]);
                    proof {
                        assert(payload@ =~= buf@.subrange(h + 4, h + 4 + k + 1));
                    }
                    k = k + 1;
                }
                proof {
                    assert forall|p: Seq<u8>| #![trigger frame_prefix(buf@, p)] frame_prefix(
                        buf@,
                        p,
                    ) implies (payload@ == p && start + len_usize == frame_spec(p).len()) by {
                        lemma_prefix_decode(buf@, p, h as int);
                    }
                }
                return Some((payload, start + len_usize));
            } else {
                proof {
                    assert forall|p: Seq<u8>| #![trigger frame_prefix(buf@, p)] !frame_prefix(
                        buf@,
                        p,
                    ) by {
                        if frame_prefix(buf@, p) {
                            lemma_prefix_decode(buf@, p, h as int);
                        }
                    }
                }
                return None;
            }
        },
        None => {
            proof {
                assert forall|p: Seq<u8>| #![trigger frame_prefix(buf@, p)] !frame_prefix(
                    buf@,
                    p,
                ) by {
                    if frame_prefix(buf@, p) {
                        lemma_prefix_decode(buf@, p, h as int);
                    }
                }
            }
            return None;
        },
    };
}

/// The buffer begins with the encoded frame of payload `p`.
pub open spec fn frame_prefix(b: Seq<u8>, p: Seq<u8>) -> bool {
    b.len() >= frame_spec(p).len() && b.subrange(0, frame_spec(p).len() as int) == frame_spec(p)
}

/// Framing round trip: a buffer that is an encoded frame, alone or
/// followed by further stream bytes, begins with that frame — so by
/// `decode_frame`'s contract it decodes to exactly the encoded payload,
/// consuming exactly the frame.
pub proof fn lemma_frame_round_trip(p: Seq<u8>, rest: Seq<u8>)
    ensures
        frame_prefix(frame_spec(p) + rest, p),
{
    assert((frame_spec(p) + rest).subrange(0, frame_spec(p).len() as int) =~= frame_spec(p));
}

/// A buffer with a frame prefix holds the frame's header terminator,
/// and nothing that looks like one before it.
proof fn lemma_prefix_term(b: Seq<u8>, p: Seq<u8>)
    requires
        frame_prefix(b, p),
    ensures
        ({
            let hh = header_prefix().len() as int + dec_bytes(p.len()).len() as int;
            &&& term_at(b, hh)
            &&& forall|a: int| 0 <= a < hh ==> b[a] != 13
            &&& forall|a: int| 0 <= a < hh ==> !term_at(b, a)
        }),
{
    let f = frame_spec(p);
    lemma_dec_round_trip(p.len());
    let hh = header_prefix().len() as int + dec_bytes(p.len()).len() as int;
    assert forall|a: int| 0 <= a < f.len() implies b[a] == f[a] by {
        assert(b.subrange(0, f.len() as int)[a] == b[a]);
    }
    assert forall|a: int| 0 <= a < hh implies b[a] != 13 by {
        if a < 16 {
            assert(f[a] == header_prefix()[a]);
        } else {
            assert(f[a] == dec_bytes(p.len())[a - 16]);
            assert(48 <= dec_bytes(p.len())[a - 16] <= 57);
        }
    }
    assert(term_at(b, hh)) by {
        assert(f[hh] == 13 && f[hh + 1] == 10 && f[hh + 2] == 13 && f[hh + 3] == 10);
    }
    assert forall|a: int| 0 <= a < hh implies !term_at(b, a) by {
        assert(b[a] != 13);
    }
}

/// With a frame prefix, the scan's first terminator is the frame's, the
/// single header line spans the front, and it carries the payload
/// length.
proof fn lemma_prefix_structure(b: Seq<u8>, p: Seq<u8>, h: int, pos: int, e: int)
    requires
        frame_prefix(b, p),
        b.len() <= u64::MAX,
        forall|a: int| 0 <= a < h ==> !term_at(b, a),
        term_at(b, h),
        pos == 0,
        0 <= e <= h,
        forall|a: int| #![trigger b[a]] pos <= a < e ==> !(b[a] == 13 && b[a + 1] == 10),
        e == h || (b[e] == 13 && b[e + 1] == 10),
    ensures
        e == h,
        h == header_prefix().len() + dec_bytes(p.len()).len(),
        cl_line_value(b.subrange(pos, e)) == Some(p.len() as u64),
{
    let f = frame_spec(p);
    lemma_prefix_term(b, p);
    lemma_dec_round_trip(p.len());
    let hh = header_prefix().len() as int + dec_bytes(p.len()).len() as int;
    assert(h == hh) by {
        if h < hh {
            assert(b[h] != 13);
        }
        if hh < h {
            assert(!term_at(b, hh));
        }
    }
    assert(e == h) by {
        if e < h {
            assert(b[e] != 13);
        }
    }
    assert forall|a: int| 0 <= a < f.len() implies b[a] == f[a] by {
        assert(b.subrange(0, f.len() as int)[a] == b[a]);
    }
    assert(b.subrange(0, h) =~= header_prefix() + dec_bytes(p.len()));
    lemma_canonical_line(p.len());
}

/// With a frame prefix and the terminator found, the payload sits right
/// after the blank line and the whole frame fits the buffer.
proof fn lemma_prefix_decode(b: Seq<u8>, p: Seq<u8>, h: int)
    requires
        frame_prefix(b, p),
        b.len() <= u64::MAX,
        forall|a: int| 0 <= a < h ==> !term_at(b, a),
        term_at(b, h),
    ensures
        h == header_prefix().len() + dec_bytes(p.len()).len(),
        h + 4 + p.len() == frame_spec(p).len() <= b.len(),
        b.subrange(h + 4, h + 4 + p.len()) == p,
{
    let f = frame_spec(p);
    lemma_prefix_term(b, p);
    lemma_dec_round_trip(p.len());
    let hh = header_prefix().len() as int + dec_bytes(p.len()).len() as int;
    assert(h == hh) by {
        if h < hh {
            assert(b[h] != 13);
        }
        if hh < h {
            assert(!term_at(b, hh));
        }
    }
    assert forall|a: int| 0 <= a < f.len() implies b[a] == f[a] by {
        assert(b.subrange(0, f.len() as int)[a] == b[a]);
    }
    assert(b.subrange(h + 4, h + 4 + p.len()) =~= p);
}

} // verus!
