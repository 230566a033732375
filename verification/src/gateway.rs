//! The gateway's editor-facing bookkeeping: open documents and the
//! mapping from editor language tokens to languages.
//!
//! The JSON-RPC server itself and the analyzer processes live outside;
//! this core decides what each document notification does: which VFS
//! command it submits and which analyzer the request goes to.

use vstd::prelude::*;
use crate::types::{LanguageId, LangSpec, lang_view};
use crate::path::VfsPath;
use crate::commands::VfsCommand;

verus! {

/// What the editor told us the language of a document is.
pub open spec fn editor_lang(s: Seq<char>) -> LangSpec {
    if s == "rust"@ {
        LangSpec::Rust
    } else if s == "typescript"@ || s == "typescriptreact"@ {
        LangSpec::TypeScript
    } else if s == "javascript"@ || s == "javascriptreact"@ {
        LangSpec::JavaScript
    } else if s == "go"@ {
        LangSpec::Go
    } else if s == "python"@ {
        LangSpec::Python
    } else {
        LangSpec::Other(s)
    }
}

/// Map an editor-supplied language token to a language.
pub fn language_from_editor_token(token: &str) -> (r: LanguageId)
    ensures
        lang_view(r) == editor_lang(token@),
{
    if crate::types::str_eq(token, "rust") {
        LanguageId::Rust
    } else if crate::types::str_eq(token, "typescript") || crate::types::str_eq(
        token,
        "typescriptreact",
    ) {
        LanguageId::TypeScript
    } else if crate::types::str_eq(token, "javascript") || crate::types::str_eq(
        token,
        "javascriptreact",
    ) {
        LanguageId::JavaScript
    } else if crate::types::str_eq(token, "go") {
        LanguageId::Go
    } else if crate::types::str_eq(token, "python") {
        LanguageId::Python
    } else {
        LanguageId::Other(token.to_owned())
    }
}

/// The gateway's record of one open document.
#[derive(Debug)]
pub struct DocumentState {
    /// The editor's version of the document.
    pub version: i32,
    /// The language the analyzer requests go to.
    pub language_id: LanguageId,
    /// The document's place in the VFS.
    pub vfs_path: VfsPath,
}

/// The open-document table, keyed by the document's URI text.
pub struct GatewayCore {
    open_documents: Vec<(String, DocumentState)>,
}

pub open spec fn uris_unique(s: Seq<(String, DocumentState)>) -> bool {
    forall|i: int, j: int| 0 <= i < j < s.len() ==> (#[trigger] s[i]).0@ != (#[trigger] s[j]).0@
}

/// The recorded version and language of a document, if it is open.
pub open spec fn doc_of(s: Seq<(String, DocumentState)>, uri: Seq<char>) -> Option<(i32, LangSpec)> {
    if exists|i: int| 0 <= i < s.len() && (#[trigger] s[i]).0@ == uri {
        let i = choose|i: int| 0 <= i < s.len() && (#[trigger] s[i]).0@ == uri;
        Some((s[i].1.version, lang_view(s[i].1.language_id)))
    } else {
        None
    }
}

proof fn lemma_doc_at(s: Seq<(String, DocumentState)>, i: int)
    requires
        uris_unique(s),
        0 <= i < s.len(),
    ensures
        doc_of(s, s[i].0@) == Some((s[i].1.version, lang_view(s[i].1.language_id))),
{
    let u = s[i].0@;
    assert(exists|j: int| 0 <= j < s.len() && (#[trigger] s[j]).0@ == u);
    let j = choose|j: int| 0 <= j < s.len() && (#[trigger] s[j]).0@ == u;
    if i != j {
        assert(false);
    }
}

/// Replacing one URI's entry leaves every other document unchanged.
proof fn lemma_doc_update(s: Seq<(String, DocumentState)>, i: int, e: (String, DocumentState))
    requires
        uris_unique(s),
        0 <= i < s.len(),
        e.0@ == s[i].0@,
    ensures
        uris_unique(s.update(i, e)),
        doc_of(s.update(i, e), e.0@) == Some((e.1.version, lang_view(e.1.language_id))),
        forall|u: Seq<char>| u != e.0@ ==> #[trigger] doc_of(s.update(i, e), u) == doc_of(s, u),
{
    let s2 = s.update(i, e);
    assert forall|a: int, b: int| 0 <= a < b < s2.len() implies (#[trigger] s2[a]).0@ != (
    #[trigger] s2[b]).0@ by {
        assert(s2[a].0@ == s[a].0@ && s2[b].0@ == s[b].0@);
    }
    lemma_doc_at(s2, i);
    assert forall|u: Seq<char>| u != e.0@ implies #[trigger] doc_of(s2, u) == doc_of(s, u) by {
        if exists|a: int| 0 <= a < s.len() && (#[trigger] s[a]).0@ == u {
            let a = choose|a: int| 0 <= a < s.len() && (#[trigger] s[a]).0@ == u;
            assert(a != i);
            assert(s2[a].0@ == u);
            lemma_doc_at(s, a);
            lemma_doc_at(s2, a);
        } else {
            if exists|a: int| 0 <= a < s2.len() && (#[trigger] s2[a]).0@ == u {
                let a = choose|a: int| 0 <= a < s2.len() && (#[trigger] s2[a]).0@ == u;
                assert(s[a].0@ == u);
            }
        }
    }
}

/// Recording a fresh URI leaves every other document unchanged.
proof fn lemma_doc_push(s: Seq<(String, DocumentState)>, e: (String, DocumentState))
    requires
        uris_unique(s),
        forall|i: int| 0 <= i < s.len() ==> (#[trigger] s[i]).0@ != e.0@,
    ensures
        uris_unique(s.push(e)),
        doc_of(s.push(e), e.0@) == Some((e.1.version, lang_view(e.1.language_id))),
        forall|u: Seq<char>| u != e.0@ ==> #[trigger] doc_of(s.push(e), u) == doc_of(s, u),
{
    let s2 = s.push(e);
    assert forall|a: int, b: int| 0 <= a < b < s2.len() implies (#[trigger] s2[a]).0@ != (
    #[trigger] s2[b]).0@ by {
        if b == s.len() {
            assert(s2[a].0@ == s[a].0@);
        }
    }
    lemma_doc_at(s2, s.len() as int);
    assert forall|u: Seq<char>| u != e.0@ implies #[trigger] doc_of(s2, u) == doc_of(s, u) by {
        if exists|a: int| 0 <= a < s.len() && (#[trigger] s[a]).0@ == u {
            let a = choose|a: int| 0 <= a < s.len() && (#[trigger] s[a]).0@ == u;
            assert(s2[a].0@ == u);
            lemma_doc_at(s, a);
            lemma_doc_at(s2, a);
        } else {
            if exists|a: int| 0 <= a < s2.len() && (#[trigger] s2[a]).0@ == u {
                let a = choose|a: int| 0 <= a < s2.len() && (#[trigger] s2[a]).0@ == u;
                assert(a < s.len());
                assert(s[a].0@ == u);
            }
        }
    }
}

/// Dropping one URI's entry leaves every other document unchanged.
proof fn lemma_doc_remove(s: Seq<(String, DocumentState)>, i: int)
    requires
        uris_unique(s),
        0 <= i < s.len(),
    ensures
        uris_unique(s.remove(i)),
        doc_of(s.remove(i), s[i].0@) is None,
        forall|u: Seq<char>| u != s[i].0@ ==> #[trigger] doc_of(s.remove(i), u) == doc_of(s, u),
{
    let s2 = s.remove(i);
    assert forall|a: int, b: int| 0 <= a < b < s2.len() implies (#[trigger] s2[a]).0@ != (
    #[trigger] s2[b]).0@ by {
        let a0 = if a < i { a } else { a + 1 };
        let b0 = if b < i { b } else { b + 1 };
        assert(s2[a] == s[a0] && s2[b] == s[b0]);
    }
    if exists|a: int| 0 <= a < s2.len() && (#[trigger] s2[a]).0@ == s[i].0@ {
        let a = choose|a: int| 0 <= a < s2.len() && (#[trigger] s2[a]).0@ == s[i].0@;
        let a0 = if a < i { a } else { a + 1 };
        assert(s2[a] == s[a0]);
        assert(false);
    }
    assert forall|u: Seq<char>| u != s[i].0@ implies #[trigger] doc_of(s2, u) == doc_of(s, u) by {
        if exists|a: int| 0 <= a < s.len() && (#[trigger] s[a]).0@ == u {
            let a = choose|a: int| 0 <= a < s.len() && (#[trigger] s[a]).0@ == u;
            assert(a != i);
            let a2 = if a < i { a } else { a - 1 };
            assert(s2[a2] == s[a]);
            lemma_doc_at(s, a);
            lemma_doc_at(s2, a2);
        } else {
            if exists|a: int| 0 <= a < s2.len() && (#[trigger] s2[a]).0@ == u {
                let a = choose|a: int| 0 <= a < s2.len() && (#[trigger] s2[a]).0@ == u;
                let a0 = if a < i { a } else { a + 1 };
                assert(s2[a] == s[a0]);
            }
        }
    }
}

impl GatewayCore {
    pub closed spec fn inv(self) -> bool {
        uris_unique(self.open_documents@)
    }

    pub closed spec fn spec_docs(self) -> Seq<(String, DocumentState)> {
        self.open_documents@
    }

    /// The recorded version and language of a document.
    pub open spec fn spec_doc(self, uri: Seq<char>) -> Option<(i32, LangSpec)> {
        doc_of(self.spec_docs(), uri)
    }

    /// A gateway with no open documents.
    pub fn new() -> (r: Self)
        ensures
            r.inv(),
            r.spec_docs() == Seq::<(String, DocumentState)>::empty(),
    {
        GatewayCore { open_documents: Vec::new() }
    }

    /// A document opened: record it under its URI and hand back the
    /// command that mirrors its text into the VFS. An already-open URI
    /// is re-recorded with the new state.
    #[verifier::loop_isolation(false)]
    pub fn did_open(
        &mut self,
        uri: String,
        path_text: &str,
        language_token: &str,
        version: i32,
        text: String,
    ) -> (cmd: VfsCommand)
        requires
            old(self).inv(),
        ensures
            final(self).inv(),
            final(self).spec_doc(uri@) == Some((version, editor_lang(language_token@))),
            forall|u: Seq<char>| u != uri@ ==> #[trigger] final(self).spec_doc(u) == old(
                self,
            ).spec_doc(u),
            cmd matches VfsCommand::CreateFile { path, content } && path.spec_components()
                == crate::path::normalize_spec(path_text@) && path.spec_original() == path_text@
                && content@ == text@,
    {
        let vfs_path = VfsPath::new(path_text);
        let language_id = language_from_editor_token(language_token);
        let cmd = VfsCommand::CreateFile { path: vfs_path.clone(), content: text.clone() };
        let state = DocumentState { version, language_id, vfs_path };
        let mut i: usize = 0;
        while i < self.open_documents.len()
            invariant
                i <= self.open_documents@.len(),
                *self == *old(self),
                forall|j: int| 0 <= j < i ==> (#[trigger] self.open_documents@[j]).0@ != uri@,
            decreases self.open_documents@.len() - i,
        {
            if self.open_documents[i].0 == uri {
                proof {
                    lemma_doc_update(self.open_documents@, i as int, (uri, state));
                }
                self.open_documents.set(i, (uri, state));
                return cmd;
            }
            i = i + 1;
        }
        proof {
            lemma_doc_push(self.open_documents@, (uri, state));
        }
        self.open_documents.push((uri, state));
        cmd
    }

    /// A document changed: move its recorded version and name the
    /// language whose analyzer the change is forwarded to.
    #[verifier::loop_isolation(false)]
    pub fn did_change(&mut self, uri: &str, version: i32) -> (r: Option<LanguageId>)
        requires
            old(self).inv(),
        ensures
            final(self).inv(),
            match old(self).spec_doc(uri@) {
                Some(d) => {
                    &&& r matches Some(l) && lang_view(l) == d.1
                    &&& final(self).spec_doc(uri@) == Some((version, d.1))
                },
                None => r is None && final(self).spec_doc(uri@) is None,
            },
            forall|u: Seq<char>| u != uri@ ==> #[trigger] final(self).spec_doc(u) == old(
                self,
            ).spec_doc(u),
    {
        let mut i: usize = 0;
        while i < self.open_documents.len()
            invariant
                i <= self.open_documents@.len(),
                *self == *old(self),
                forall|j: int| 0 <= j < i ==> (#[trigger] self.open_documents@[j]).0@ != uri@,
            decreases self.open_documents@.len() - i,
        {
            if crate::types::str_eq(self.open_documents[i].0.as_str(), uri) {
                let ghost s0 = self.open_documents@;
                proof {
                    lemma_doc_at(s0, i as int);
                }
                let language = self.open_documents[i].1.language_id.clone();
                let path = self.open_documents[i].1.vfs_path.clone();
                let key = self.open_documents[i].0.clone();
                let state = DocumentState { version, language_id: language.clone(), vfs_path: path };
                proof {
                    lemma_doc_update(s0, i as int, (key, state));
                }
                self.open_documents.set(i, (key, state));
                return Some(language);
            }
            i = i + 1;
        }
        None
    }

    /// A document closed: drop it and name the language to notify.
    #[verifier::loop_isolation(false)]
    pub fn did_close(&mut self, uri: &str) -> (r: Option<LanguageId>)
        requires
            old(self).inv(),
        ensures
            final(self).inv(),
            final(self).spec_doc(uri@) is None,
            match old(self).spec_doc(uri@) {
                Some(d) => r matches Some(l) && lang_view(l) == d.1,
                None => r is None,
            },
            forall|u: Seq<char>| u != uri@ ==> #[trigger] final(self).spec_doc(u) == old(
                self,
            ).spec_doc(u),
    {
        let mut i: usize = 0;
        while i < self.open_documents.len()
            invariant
                i <= self.open_documents@.len(),
                *self == *old(self),
                forall|j: int| 0 <= j < i ==> (#[trigger] self.open_documents@[j]).0@ != uri@,
            decreases self.open_documents@.len() - i,
        {
            if crate::types::str_eq(self.open_documents[i].0.as_str(), uri) {
                let ghost s0 = self.open_documents@;
                proof {
                    lemma_doc_at(s0, i as int);
                    lemma_doc_remove(s0, i as int);
                }
                let language = self.open_documents[i].1.language_id.clone();
                self.open_documents.remove(i);
                return Some(language);
            }
            i = i + 1;
        }
        None
    }

    /// The open document under a URI: its version, language and path.
    #[verifier::loop_isolation(false)]
    pub fn get_document(&self, uri: &str) -> (r: Option<(i32, LanguageId, VfsPath)>)
        requires
            self.inv(),
        ensures
            match self.spec_doc(uri@) {
                Some(d) => r matches Some(t) && t.0 == d.0 && lang_view(t.1) == d.1,
                None => r is None,
            },
    {
        let mut i: usize = 0;
        while i < self.open_documents.len()
            invariant
                i <= self.open_documents@.len(),
                forall|j: int| 0 <= j < i ==> (#[trigger] self.open_documents@[j]).0@ != uri@,
            decreases self.open_documents@.len() - i,
        {
            if crate::types::str_eq(self.open_documents[i].0.as_str(), uri) {
                proof {
                    lemma_doc_at(self.open_documents@, i as int);
                }
                let d = &self.open_documents[i].1;
                return Some((d.version, d.language_id.clone(), d.vfs_path.clone()));
            }
            i = i + 1;
        }
        None
    }

    /// How many documents are open.
    pub fn open_count(&self) -> (r: usize)
        ensures
            r == self.spec_docs().len(),
    {
        self.open_documents.len()
    }
}

} // verus!
