//! Normalized virtual file paths.
//!
//! A path is a sequence of non-empty components obtained from the textual
//! form by splitting on `/`, collapsing `.` and empty segments, and
//! resolving `..` by popping the previous component (excess `..` at the
//! root is dropped).

use vstd::prelude::*;
use crate::types::{ClientId, LanguageId, PartitionKey, hash64_str, language_of_ext, lang_view,
    str_eq};

verus! {

// ---------------------------------------------------------------------------
// Specification of splitting, joining and normalization.
// ---------------------------------------------------------------------------

/// Split a character sequence on `/`. The result always has at least one
/// element; empty segments are kept (normalization drops them later).
pub open spec fn split_slash(s: Seq<char>) -> Seq<Seq<char>>
    decreases s.len(),
{
    if s.len() == 0 {
        seq![Seq::<char>::empty()]
    } else {
        let r = split_slash(s.drop_last());
        if s.last() == '/' {
            r.push(Seq::<char>::empty())
        } else {
            r.update(r.len() - 1, r.last().push(s.last()))
        }
    }
}

/// One normalization step: drop empty and `.` segments, pop on `..`,
/// keep everything else.
pub open spec fn norm_step(prefix: Seq<Seq<char>>, c: Seq<char>) -> Seq<Seq<char>> {
    if c.len() == 0 || c == "."@ {
        prefix
    } else if c == ".."@ {
        if prefix.len() > 0 {
            prefix.drop_last()
        } else {
            prefix
        }
    } else {
        prefix.push(c)
    }
}

/// Normalize a sequence of raw segments.
pub open spec fn norm_fold(cs: Seq<Seq<char>>) -> Seq<Seq<char>>
    decreases cs.len(),
{
    if cs.len() == 0 {
        Seq::empty()
    } else {
        norm_step(norm_fold(cs.drop_last()), cs.last())
    }
}

/// Normalized components of a textual path.
pub open spec fn normalize_spec(s: Seq<char>) -> Seq<Seq<char>> {
    norm_fold(split_slash(s))
}

/// Join components with `/` separators.
pub open spec fn join_slash(cs: Seq<Seq<char>>) -> Seq<char>
    decreases cs.len(),
{
    if cs.len() == 0 {
        Seq::empty()
    } else if cs.len() == 1 {
        cs[0]
    } else {
        join_slash(cs.drop_last()) + seq!['/'] + cs.last()
    }
}

/// The character sequences of a sequence of strings.
pub open spec fn strings_view(v: Seq<String>) -> Seq<Seq<char>> {
    v.map_values(|s: String| s@)
}

/// `strings_view` commutes with `subrange`.
pub proof fn lemma_strings_view_subrange(v: Seq<String>, a: int, b: int)
    requires
        0 <= a <= b <= v.len(),
    ensures
        strings_view(v.subrange(a, b)) == strings_view(v).subrange(a, b),
{
    assert(strings_view(v.subrange(a, b)) =~= strings_view(v).subrange(a, b));
}

/// `strings_view` commutes with concatenation.
pub proof fn lemma_strings_view_add(a: Seq<String>, b: Seq<String>)
    ensures
        strings_view(a + b) == strings_view(a) + strings_view(b),
{
    assert(strings_view(a + b) =~= strings_view(a) + strings_view(b));
}

/// A segment holds no `/`.
pub open spec fn slash_free(c: Seq<char>) -> bool {
    forall|k: int| 0 <= k < c.len() ==> c[k] != '/'
}

/// Well-formed normalized components: non-empty, none is `.` or `..`,
/// and none holds a separator.
pub open spec fn wf_components(cs: Seq<Seq<char>>) -> bool {
    forall|j: int| 0 <= j < cs.len() ==> {
        &&& (#[trigger] cs[j]).len() > 0
        &&& cs[j] != "."@
        &&& cs[j] != ".."@
        &&& slash_free(cs[j])
    }
}

/// The language an optional extension suggests, where there is one.
pub open spec fn language_of_ext_opt(e: Option<Seq<char>>) -> Option<crate::types::LangSpec> {
    match e {
        Some(x) => Some(language_of_ext(x)),
        None => None,
    }
}

/// The extension of a file name: the characters after the last `.`, if any.
pub open spec fn ext_of(name: Seq<char>) -> Option<Seq<char>>
    decreases name.len(),
{
    if name.len() == 0 {
        None
    } else if name.last() == '.' {
        Some(Seq::empty())
    } else {
        match ext_of(name.drop_last()) {
            Some(e) => Some(e.push(name.last())),
            None => None,
        }
    }
}

// ---------------------------------------------------------------------------
// Lemmas: normalization output is well formed and idempotent.
// ---------------------------------------------------------------------------

/// `split_slash` is never empty and its segments hold no `/`.
pub proof fn lemma_split_slash_shape(s: Seq<char>)
    ensures
        split_slash(s).len() > 0,
        forall|j: int| 0 <= j < split_slash(s).len() ==> slash_free(#[trigger] split_slash(s)[j]),
    decreases s.len(),
{
    if s.len() > 0 {
        lemma_split_slash_shape(s.drop_last());
    }
}

/// Every component that normalization keeps is non-empty, is neither `.`
/// nor `..`, and came from the input (so it holds no `/` when no input
/// segment does).
pub proof fn lemma_norm_fold_wf(cs: Seq<Seq<char>>)
    requires
        forall|j: int| 0 <= j < cs.len() ==> slash_free(#[trigger] cs[j]),
    ensures
        wf_components(norm_fold(cs)),
    decreases cs.len(),
{
    reveal_strlit(".");
    reveal_strlit("..");
    if cs.len() > 0 {
        assert(forall|j: int|
            0 <= j < cs.drop_last().len() ==> slash_free(#[trigger] cs.drop_last()[j]));
        lemma_norm_fold_wf(cs.drop_last());
        let prefix = norm_fold(cs.drop_last());
        let c = cs.last();
        if c.len() == 0 || c == "."@ || c == ".."@ {
        } else {
            assert(slash_free(c));
            assert(c.len() > 0);
        }
    }
}

/// Normalizing already-normalized components changes nothing.
pub proof fn lemma_norm_fold_identity(cs: Seq<Seq<char>>)
    requires
        wf_components(cs),
    ensures
        norm_fold(cs) == cs,
    decreases cs.len(),
{
    if cs.len() > 0 {
        assert(wf_components(cs.drop_last()));
        lemma_norm_fold_identity(cs.drop_last());
        let c = cs.last();
        assert(c.len() > 0 && c != "."@ && c != ".."@);
        assert(norm_fold(cs) =~= cs);
    } else {
        assert(norm_fold(cs) =~= cs);
    }
}

/// Appending slash-free characters extends the final segment of a split.
proof fn lemma_split_append_free(s: Seq<char>, t: Seq<char>)
    requires
        slash_free(t),
    ensures
        split_slash(s + t) == split_slash(s).update(
            split_slash(s).len() - 1,
            split_slash(s).last() + t,
        ),
    decreases t.len(),
{
    lemma_split_slash_shape(s);
    if t.len() == 0 {
        assert(s + t =~= s);
        assert(split_slash(s).last() + t =~= split_slash(s).last());
        assert(split_slash(s).update(split_slash(s).len() - 1, split_slash(s).last() + t)
            =~= split_slash(s));
    } else {
        assert(slash_free(t.drop_last()));
        lemma_split_append_free(s, t.drop_last());
        let u = s + t;
        assert(u.len() > 0);
        assert(u.drop_last() =~= s + t.drop_last());
        assert(u.last() == t.last());
        assert(t.last() != '/');
        let r = split_slash(s + t.drop_last());
        assert(split_slash(u) == r.update(r.len() - 1, r.last().push(t.last())));
        assert(r.last() == split_slash(s).last() + t.drop_last());
        assert(r.last().push(t.last()) =~= split_slash(s).last() + t);
        assert(r.update(r.len() - 1, r.last().push(t.last())) =~= split_slash(s).update(
            split_slash(s).len() - 1,
            split_slash(s).last() + t,
        ));
    }
}

/// Splitting the join of slash-free components recovers the components.
pub proof fn lemma_split_join(cs: Seq<Seq<char>>)
    requires
        cs.len() > 0,
        forall|j: int| 0 <= j < cs.len() ==> slash_free(#[trigger] cs[j]),
    ensures
        split_slash(join_slash(cs)) == cs,
    decreases cs.len(),
{
    if cs.len() == 1 {
        let c = cs[0];
        assert(Seq::<char>::empty() + c =~= c);
        lemma_split_append_free(Seq::<char>::empty(), c);
        assert(split_slash(Seq::<char>::empty()) =~= seq![Seq::<char>::empty()]);
        assert(split_slash(c) =~= seq![c]);
        assert(cs =~= seq![c]);
    } else {
        assert(forall|j: int|
            0 <= j < cs.drop_last().len() ==> slash_free(#[trigger] cs.drop_last()[j]));
        lemma_split_join(cs.drop_last());
        let a = join_slash(cs.drop_last());
        let b = cs.last();
        assert(join_slash(cs) == a + seq!['/'] + b);
        let with_sep = a.push('/');
        assert(a + seq!['/'] =~= with_sep);
        assert(with_sep.drop_last() =~= a);
        assert(split_slash(with_sep) == split_slash(a).push(Seq::<char>::empty()));
        lemma_split_append_free(with_sep, b);
        assert(with_sep + b =~= a + seq!['/'] + b);
        let r = split_slash(with_sep);
        lemma_split_slash_shape(with_sep);
        assert(r =~= cs.drop_last().push(Seq::<char>::empty()));
        assert(r.last() =~= Seq::<char>::empty());
        assert(r.last() + b =~= b);
        assert(r.update(r.len() - 1, r.last() + b) =~= cs.drop_last().push(b));
        assert(cs.drop_last().push(b) =~= cs);
    }
}

/// Normalization is idempotent: re-normalizing the textual join of a
/// normalized path yields the same components, and with them the file
/// extension and the language it suggests.
pub proof fn lemma_normalize_idempotent(s: Seq<char>)
    ensures
        normalize_spec(join_slash(normalize_spec(s))) == normalize_spec(s),
        normalize_spec(s).len() > 0 ==> ext_of(
            normalize_spec(join_slash(normalize_spec(s))).last(),
        ) == ext_of(normalize_spec(s).last()),
        normalize_spec(s).len() > 0 ==> language_of_ext_opt(
            ext_of(normalize_spec(join_slash(normalize_spec(s))).last()),
        ) == language_of_ext_opt(ext_of(normalize_spec(s).last())),
{
    let cs = normalize_spec(s);
    lemma_split_slash_shape(s);
    lemma_norm_fold_wf(split_slash(s));
    if cs.len() == 0 {
        assert(join_slash(cs) =~= Seq::<char>::empty());
        assert(split_slash(Seq::<char>::empty()) =~= seq![Seq::<char>::empty()]);
        assert(norm_fold(seq![Seq::<char>::empty()]).len() == 0) by {
            let one = seq![Seq::<char>::empty()];
            assert(one.drop_last() =~= Seq::<Seq<char>>::empty());
            assert(norm_fold(one.drop_last()) =~= Seq::<Seq<char>>::empty());
        }
        assert(normalize_spec(join_slash(cs)) =~= cs);
    } else {
        lemma_split_join(cs);
        lemma_norm_fold_identity(cs);
    }
}

// ---------------------------------------------------------------------------
// The path type.
// ---------------------------------------------------------------------------

/// The identity of a path: its client annotation and component sequence.
/// Two paths are the same file name exactly when their keys are equal.
pub struct PathKey {
    pub client: Option<u64>,
    pub comps: Seq<Seq<char>>,
}

/// A normalized virtual file path.
#[derive(Debug)]
pub struct VfsPath {
    /// Client that owns this path, for multi-tenant workspaces.
    client_id: Option<ClientId>,
    /// Normalized path components.
    components: Vec<String>,
    /// Original path string.
    original: String,
}

impl VfsPath {
    /// The normalized components, as character sequences.
    pub closed spec fn spec_components(self) -> Seq<Seq<char>> {
        strings_view(self.components@)
    }

    /// The client annotation, if any.
    pub closed spec fn spec_client(self) -> Option<u64> {
        match self.client_id {
            Some(c) => Some(c.0),
            None => None,
        }
    }

    /// The original textual form the path was built from.
    pub closed spec fn spec_original(self) -> Seq<char> {
        self.original@
    }

    /// The identity of the path: client annotation plus components.
    pub open spec fn key(self) -> PathKey {
        PathKey { client: self.spec_client(), comps: self.spec_components() }
    }

    /// The components are well formed (as normalization guarantees).
    pub open spec fn wf(self) -> bool {
        wf_components(self.spec_components())
    }

    /// Build a path from its textual form, normalizing it.
    pub fn new(path: &str) -> (r: VfsPath)
        ensures
            r.spec_client() is None,
            r.spec_components() == normalize_spec(path@),
            r.spec_original() == path@,
            r.wf(),
    {
        let components = normalize(path);
        proof {
            lemma_split_slash_shape(path@);
            lemma_norm_fold_wf(split_slash(path@));
        }
        VfsPath { client_id: None, components, original: path.to_owned() }
    }

    /// Build a path carrying a client annotation.
    pub fn with_client(path: &str, client_id: ClientId) -> (r: VfsPath)
        ensures
            r.spec_client() == Some(client_id.0),
            r.spec_components() == normalize_spec(path@),
            r.spec_original() == path@,
            r.wf(),
    {
        let mut vfs_path = Self::new(path);
        vfs_path.client_id = Some(client_id);
        vfs_path
    }

    /// The normalized components.
    pub fn components(&self) -> (r: &[String])
        ensures
            strings_view(r@) == self.spec_components(),
    {
        self.components.as_slice()
    }

    /// The original path string.
    pub fn as_str(&self) -> (r: &str)
        ensures
            r@ == self.spec_original(),
    {
        self.original.as_str()
    }

    /// The client annotation, if any.
    pub fn client_id(&self) -> (r: Option<ClientId>)
        ensures
            match r {
                Some(c) => self.spec_client() == Some(c.0),
                None => self.spec_client() is None,
            },
    {
        self.client_id
    }

    /// The last component, if the path has any.
    pub fn file_name(&self) -> (r: Option<&str>)
        ensures
            match r {
                Some(name) => self.spec_components().len() > 0 && name@
                    == self.spec_components().last(),
                None => self.spec_components().len() == 0,
            },
    {
        if self.components.len() == 0 {
            None
        } else {
            let name: &String = &self.components[self.components.len() - 1];
            Some(name.as_str())
        }
    }

    /// The extension of the last component: the characters after its
    /// final `.`, if it has one.
    pub fn extension(&self) -> (r: Option<&str>)
        ensures
            match r {
                Some(e) => self.spec_components().len() > 0 && ext_of(
                    self.spec_components().last(),
                ) == Some(e@),
                None => self.spec_components().len() == 0 || ext_of(
                    self.spec_components().last(),
                ) is None,
            },
    {
        match self.file_name() {
            None => None,
            Some(name) => str_suffix_after_dot(name),
        }
    }

    /// The path with the last component removed; `None` when there is at
    /// most one component.
    pub fn parent(&self) -> (r: Option<VfsPath>)
        requires
            self.wf(),
        ensures
            match r {
                Some(p) => {
                    &&& self.spec_components().len() > 1
                    &&& p.spec_components() == self.spec_components().drop_last()
                    &&& p.spec_client() == self.spec_client()
                    &&& p.spec_original() == join_slash(p.spec_components())
                    &&& p.wf()
                },
                None => self.spec_components().len() <= 1,
            },
    {
        if self.components.len() <= 1 {
            return None;
        }
        let end = self.components.len() - 1;
        let parent_components = clone_components(&self.components, end);
        proof {
            lemma_strings_view_subrange(self.components@, 0, end as int);
            assert(self.spec_components().subrange(0, self.spec_components().len() - 1)
                =~= self.spec_components().drop_last());
        }
        let original = join_components(&parent_components);
        proof {
            assert(wf_components(self.spec_components().drop_last()));
        }
        Some(VfsPath { client_id: self.client_id, components: parent_components, original })
    }

    /// Append another textual path: its normalized components are added
    /// after this path's components.
    pub fn join(&self, other: &str) -> (r: VfsPath)
        requires
            self.wf(),
        ensures
            r.spec_components() == self.spec_components() + normalize_spec(other@),
            r.spec_client() == self.spec_client(),
            r.spec_original() == join_slash(r.spec_components()),
            r.wf(),
    {
        let other_components = normalize(other);
        let mut new_components = clone_components(&self.components, self.components.len());
        proof {
            lemma_strings_view_subrange(self.components@, 0, self.components@.len() as int);
            assert(self.components@.subrange(0, self.components@.len() as int)
                =~= self.components@);
        }
        let ghost base = new_components@;
        append_components(&mut new_components, &other_components);
        proof {
            lemma_strings_view_add(base, other_components@);
            lemma_split_slash_shape(other@);
            lemma_norm_fold_wf(split_slash(other@));
        }
        let original = join_components(&new_components);
        VfsPath { client_id: self.client_id, components: new_components, original }
    }

    /// The textual form rebuilt from the components; keeps a leading `/`
    /// when the original form was rooted.
    pub fn to_path_buf(&self) -> (r: String)
        ensures
            r@ == if self.spec_original().len() > 0 && self.spec_original()[0] == '/' {
                seq!['/'] + join_slash(self.spec_components())
            } else {
                join_slash(self.spec_components())
            },
    {
        let joined = join_components(&self.components);
        if self.original.as_str().unicode_len() > 0 && self.original.as_str().get_char(0) == '/' {
            let mut rooted = String::new();
            rooted.append("/");
            rooted.append(joined.as_str());
            proof {
                reveal_strlit("/");
                assert(rooted@ =~= seq!['/'] + join_slash(self.spec_components()));
            }
            rooted
        } else {
            joined
        }
    }

    /// The language suggested by the file extension, if there is one.
    pub fn language_id(&self) -> (r: Option<LanguageId>)
        ensures
            match r {
                Some(l) => {
                    &&& self.spec_components().len() > 0
                    &&& ext_of(self.spec_components().last()) matches Some(e)
                    &&& lang_view(l) == language_of_ext(
                        ext_of(self.spec_components().last()).unwrap(),
                    )
                },
                None => self.spec_components().len() == 0 || ext_of(
                    self.spec_components().last(),
                ) is None,
            },
    {
        match self.extension() {
            Some(e) => Some(LanguageId::from_extension(e)),
            None => None,
        }
    }

    /// The partition key: the hash of the original textual form.
    pub fn partition_key(&self) -> (r: PartitionKey)
        ensures
            r.0@ == vstd::bytes::spec_u64_to_le_bytes(hash64_str(self.spec_original())),
    {
        PartitionKey::from_path(self.original.as_str())
    }

    /// Whether this path lies under `other`, component-wise.
    pub fn starts_with(&self, other: &VfsPath) -> (r: bool)
        ensures
            r == other.spec_components().is_prefix_of(self.spec_components()),
    {
        if self.components.len() < other.components.len() {
            proof {
                assert(!other.spec_components().is_prefix_of(self.spec_components()));
            }
            return false;
        }
        let mut i: usize = 0;
        while i < other.components.len()
            invariant
                i <= other.components@.len() <= self.components@.len(),
                forall|k: int| 0 <= k < i ==> self.spec_components()[k]
                    == other.spec_components()[k],
            decreases other.components@.len() - i,
        {
            if !(self.components[i] == other.components[i]) {
                proof {
                    assert(self.spec_components()[i as int] != other.spec_components()[i as int]);
                    assert(!other.spec_components().is_prefix_of(self.spec_components()));
                }
                return false;
            }
            i = i + 1;
        }
        proof {
            assert(other.spec_components() =~= self.spec_components().subrange(
                0,
                other.spec_components().len() as int,
            ));
        }
        true
    }
}

impl Clone for VfsPath {
    fn clone(&self) -> (r: Self)
        ensures
            r.spec_components() == self.spec_components(),
            r.spec_client() == self.spec_client(),
            r.spec_original() == self.spec_original(),
    {
        let components = clone_components(&self.components, self.components.len());
        proof {
            lemma_strings_view_subrange(self.components@, 0, self.components@.len() as int);
            assert(self.components@.subrange(0, self.components@.len() as int)
                =~= self.components@);
        }
        VfsPath { client_id: self.client_id, components, original: self.original.clone() }
    }
}

impl PartialEq for VfsPath {
    /// Paths are equal exactly when their component sequences and client
    /// annotations are equal; the original textual form does not count.
    fn eq(&self, other: &VfsPath) -> (r: bool) {
        let clients_match = match (self.client_id, other.client_id) {
            (None, None) => true,
            (Some(a), Some(b)) => a.0 == b.0,
            _ => false,
        };
        if !clients_match {
            return false;
        }
        if self.components.len() != other.components.len() {
            proof {
                assert(self.spec_components().len() != other.spec_components().len());
            }
            return false;
        }
        let mut i: usize = 0;
        while i < self.components.len()
            invariant
                i <= self.components@.len() == other.components@.len(),
                self.spec_client() == other.spec_client(),
                forall|k: int| 0 <= k < i ==> self.spec_components()[k]
                    == other.spec_components()[k],
            decreases self.components@.len() - i,
        {
            if !(self.components[i] == other.components[i]) {
                proof {
                    assert(self.spec_components()[i as int] != other.spec_components()[i as int]);
                }
                return false;
            }
            i = i + 1;
        }
        proof {
            assert(self.spec_components() =~= other.spec_components());
        }
        true
    }
}

impl vstd::std_specs::cmp::PartialEqSpecImpl for VfsPath {
    open spec fn obeys_eq_spec() -> bool {
        true
    }

    open spec fn eq_spec(&self, other: &VfsPath) -> bool {
        self.key() == other.key()
    }
}

// ---------------------------------------------------------------------------
// Exec helpers.
// ---------------------------------------------------------------------------

/// Clone the first `upto` components of a vector of strings.
fn clone_components(v: &Vec<String>, upto: usize) -> (r: Vec<String>)
    requires
        upto <= v@.len(),
    ensures
        r@ == v@.subrange(0, upto as int),
{
    let mut out: Vec<String> = Vec::new();
    let mut i: usize = 0;
    while i < upto
        invariant
            i <= upto <= v@.len(),
            out@ =~= v@.subrange(0, i as int),
        decreases upto - i,
    {
        out.push(v[i].clone());
        proof {
            assert(out@ =~= v@.subrange(0, i + 1));
        }
        i = i + 1;
    }
    out
}

/// Append clones of all components of `src` to `dst`.
fn append_components(dst: &mut Vec<String>, src: &Vec<String>)
    ensures
        final(dst)@ == old(dst)@ + src@,
{
    let ghost base = dst@;
    let mut i: usize = 0;
    while i < src.len()
        invariant
            i <= src@.len(),
            dst@ =~= base + src@.subrange(0, i as int),
        decreases src@.len() - i,
    {
        dst.push(src[i].clone());
        proof {
            assert(dst@ =~= base + src@.subrange(0, i + 1));
        }
        i = i + 1;
    }
    proof {
        assert(base + src@.subrange(0, src@.len() as int) =~= base + src@);
    }
}

/// Apply one normalization step to the accumulated components.
fn norm_push(components: &mut Vec<String>, seg: &str)
    ensures
        strings_view(final(components)@) == norm_step(
            strings_view(old(components)@),
            seg@,
        ),
{
    if seg.unicode_len() == 0 || str_eq(seg, ".") {
    } else if str_eq(seg, "..") {
        if components.len() > 0 {
            components.pop();
            proof {
                assert(strings_view(components@) =~= strings_view(old(components)@).drop_last());
            }
        }
    } else {
        components.push(seg.to_owned());
        proof {
            assert(strings_view(components@) =~= strings_view(old(components)@).push(seg@));
        }
    }
}

/// Normalize a textual path into components.
fn normalize(path: &str) -> (r: Vec<String>)
    ensures
        strings_view(r@) == normalize_spec(path@),
{
    let mut components: Vec<String> = Vec::new();
    let n = path.unicode_len();
    let mut i: usize = 0;
    let mut start: usize = 0;
    while i < n
        invariant
            start <= i <= n == path@.len(),
            split_slash(path@.subrange(0, i as int)).last() =~= path@.subrange(
                start as int,
                i as int,
            ),
            strings_view(components@) =~= norm_fold(
                split_slash(path@.subrange(0, i as int)).drop_last(),
            ),
        decreases n - i,
    {
        let ghost pref = path@.subrange(0, i as int);
        let c = path.get_char(i);
        proof {
            lemma_split_slash_shape(pref);
            assert(path@.subrange(0, i + 1).drop_last() =~= pref);
            assert(path@.subrange(0, i + 1).last() == path@[i as int]);
        }
        if c == '/' {
            let seg = path.substring_char(start, i);
            norm_push(&mut components, seg);
            proof {
                let cs = split_slash(pref);
                assert(norm_step(norm_fold(cs.drop_last()), cs.last()) == norm_fold(cs));
                assert(split_slash(path@.subrange(0, i + 1)) == cs.push(Seq::<char>::empty()));
                assert(split_slash(path@.subrange(0, i + 1)).drop_last() =~= cs);
                assert(path@.subrange(i + 1, i + 1) =~= Seq::<char>::empty());
            }
            start = i + 1;
        } else {
            proof {
                let cs = split_slash(pref);
                let cs2 = split_slash(path@.subrange(0, i + 1));
                assert(cs2 == cs.update(cs.len() - 1, cs.last().push(path@[i as int])));
                assert(cs2.drop_last() =~= cs.drop_last());
                assert(cs2.last() =~= path@.subrange(start as int, i + 1));
            }
        }
        i = i + 1;
    }
    let seg = path.substring_char(start, n);
    norm_push(&mut components, seg);
    proof {
        assert(path@.subrange(0, n as int) =~= path@);
        lemma_split_slash_shape(path@);
        let cs = split_slash(path@);
        assert(norm_step(norm_fold(cs.drop_last()), cs.last()) == norm_fold(cs));
    }
    components
}

/// Join components with `/` into one string.
fn join_components(components: &Vec<String>) -> (r: String)
    ensures
        r@ == join_slash(strings_view(components@)),
{
    let ghost cv = strings_view(components@);
    let mut out = String::new();
    if components.len() == 0 {
        return out;
    }
    out.append(components[0].as_str());
    let mut i: usize = 1;
    while i < components.len()
        invariant
            1 <= i <= components@.len(),
            cv == strings_view(components@),
            out@ =~= join_slash(cv.subrange(0, i as int)),
        decreases components@.len() - i,
    {
        out.append("/");
        out.append(components[i].as_str());
        proof {
            reveal_strlit("/");
            let prefix = cv.subrange(0, i + 1);
            assert(prefix.drop_last() =~= cv.subrange(0, i as int));
            assert(prefix.last() == cv[i as int]);
            assert(prefix.len() >= 2);
            assert(out@ =~= join_slash(cv.subrange(0, i as int)) + seq!['/'] + cv[i as int]);
        }
        i = i + 1;
    }
    proof {
        assert(cv.subrange(0, cv.len() as int) =~= cv);
        if components@.len() == 1 {
            assert(cv.subrange(0, 1) =~= seq![cv[0]]);
        }
    }
    out
}

/// The extension is the characters after the last `.`.
proof fn lemma_ext_of_last_dot(name: Seq<char>, d: int)
    requires
        0 <= d < name.len(),
        name[d] == '.',
        forall|k: int| d < k < name.len() ==> name[k] != '.',
    ensures
        ext_of(name) == Some(name.subrange(d + 1, name.len() as int)),
    decreases name.len(),
{
    if d == name.len() - 1 {
        assert(name.last() == '.');
        assert(name.subrange(d + 1, name.len() as int) =~= Seq::<char>::empty());
    } else {
        assert(name.last() != '.');
        lemma_ext_of_last_dot(name.drop_last(), d);
        assert(name.drop_last().subrange(d + 1, name.len() - 1).push(name.last()) =~= name
            .subrange(d + 1, name.len() as int));
    }
}

/// A name without a `.` has no extension.
proof fn lemma_ext_of_none(name: Seq<char>)
    requires
        forall|k: int| 0 <= k < name.len() ==> name[k] != '.',
    ensures
        ext_of(name) is None,
    decreases name.len(),
{
    if name.len() > 0 {
        lemma_ext_of_none(name.drop_last());
    }
}

/// The suffix after the last `.` of a name, if the name holds a `.`.
fn str_suffix_after_dot(name: &str) -> (r: Option<&str>)
    ensures
        match r {
            Some(e) => ext_of(name@) == Some(e@),
            None => ext_of(name@) is None,
        },
{
    let n = name.unicode_len();
    let mut i: usize = n;
    while i > 0
        invariant
            i <= n == name@.len(),
            forall|k: int| i <= k < n ==> name@[k] != '.',
        decreases i,
    {
        if name.get_char(i - 1) == '.' {
            let e = name.substring_char(i, n);
            proof {
                lemma_ext_of_last_dot(name@, i - 1);
            }
            return Some(e);
        }
        i = i - 1;
    }
    proof {
        lemma_ext_of_none(name@);
    }
    None
}

} // verus!

