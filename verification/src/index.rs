//! The inverted index: four mutually consistent maps over documents.

use crate::document::DocView;
use crate::document::Document;
use crate::idmap::IdMap;
use crate::idset::IdSet;
use crate::postings::PostingsMap;
use crate::strmap::lemma_str_map_index;
use crate::strmap::str_distinct_keys;
use crate::strmap::str_map_of;
use crate::strmap::StrMap;
use crate::tokenizer::token_set_of;
use crate::tokenizer::token_views;
use crate::tokenizer::tokenize;
use crate::tokenset::TokenSet;
use vstd::prelude::*;

verus! {

/// The mathematical content of an index.
#[verifier::ext_equal]
pub struct IndexModel {
    /// Token to the ids of the documents containing it.
    pub postings: Map<Seq<char>, Set<u128>>,
    /// Id to the authoritative document record.
    pub documents: Map<u128, DocView>,
    /// Path to the id of the live document at that path.
    pub path_to_id: Map<Seq<char>, u128>,
    /// Id to the document's distinct tokens.
    pub doc_tokens: Map<u128, Set<Seq<char>>>,
}

/// The model of an index with nothing in it.
pub open spec fn empty_model() -> IndexModel {
    IndexModel {
        postings: Map::empty(),
        documents: Map::empty(),
        path_to_id: Map::empty(),
        doc_tokens: Map::empty(),
    }
}

/// The invariants that tie the four maps together:
/// an id stands in a posting list exactly when the token stands in the
/// document's token set; documents and token sets share their ids; no
/// posting list is empty; paths and live documents determine each other;
/// and each token set is exactly the tokens of the document's content.
pub open spec fn wf_model(m: IndexModel) -> bool {
    &&& forall|t: Seq<char>| #[trigger]
        m.postings.contains_key(t) ==> m.postings[t].finite() && m.postings[t].len() > 0
    &&& forall|t: Seq<char>, id: u128|
        m.postings.contains_key(t) && #[trigger] m.postings[t].contains(id)
            ==> m.doc_tokens.contains_key(id) && m.doc_tokens[id].contains(t)
    &&& forall|id: u128, t: Seq<char>|
        m.doc_tokens.contains_key(id) && #[trigger] m.doc_tokens[id].contains(t)
            ==> m.postings.contains_key(t) && m.postings[t].contains(id)
    &&& forall|id: u128| #[trigger] m.documents.contains_key(id) ==> m.doc_tokens.contains_key(id)
    &&& forall|id: u128| #[trigger] m.doc_tokens.contains_key(id) ==> m.documents.contains_key(id)
    &&& forall|id: u128| #[trigger] m.documents.contains_key(id) ==> {
        let d = m.documents[id];
        &&& d.id == id
        &&& m.path_to_id.contains_key(d.path)
        &&& m.path_to_id[d.path] == id
        &&& m.doc_tokens[id] == token_set_of(d.content)
    }
    &&& forall|p: Seq<char>| #[trigger]
        m.path_to_id.contains_key(p) ==> m.documents.contains_key(m.path_to_id[p])
            && m.documents[m.path_to_id[p]].path == p
}

/// The postings map after recording that document `id` carries exactly
/// the tokens `ts` (in addition to whatever other documents carry).
pub open spec fn postings_with_doc(
    p: Map<Seq<char>, Set<u128>>,
    ts: Set<Seq<char>>,
    id: u128,
) -> Map<Seq<char>, Set<u128>> {
    Map::new(
        |t: Seq<char>| p.contains_key(t) || ts.contains(t),
        |t: Seq<char>|
            if ts.contains(t) {
                (if p.contains_key(t) {
                    p[t]
                } else {
                    Set::empty()
                }).insert(id)
            } else {
                p[t]
            },
    )
}

/// The postings map after discarding document `id` from the posting
/// list of every token in `ts`, dropping lists that become empty.
pub open spec fn postings_without_doc(
    p: Map<Seq<char>, Set<u128>>,
    ts: Set<Seq<char>>,
    id: u128,
) -> Map<Seq<char>, Set<u128>> {
    Map::new(
        |t: Seq<char>| p.contains_key(t) && !(ts.contains(t) && p[t].remove(id).is_empty()),
        |t: Seq<char>|
            if ts.contains(t) {
                p[t].remove(id)
            } else {
                p[t]
            },
    )
}

/// The model after adding a document: its tokens are computed from its
/// content, every map learns of it.
pub open spec fn add_model(m: IndexModel, d: DocView) -> IndexModel {
    let ts = token_set_of(d.content);
    IndexModel {
        postings: postings_with_doc(m.postings, ts, d.id),
        documents: m.documents.insert(d.id, d),
        path_to_id: m.path_to_id.insert(d.path, d.id),
        doc_tokens: m.doc_tokens.insert(d.id, ts),
    }
}

/// The model after removing the document with id `id`; unknown ids
/// leave the model unchanged.
pub open spec fn remove_model(m: IndexModel, id: u128) -> IndexModel {
    if !m.documents.contains_key(id) {
        m
    } else {
        IndexModel {
            postings: postings_without_doc(m.postings, m.doc_tokens[id], id),
            documents: m.documents.remove(id),
            path_to_id: m.path_to_id.remove(m.documents[id].path),
            doc_tokens: m.doc_tokens.remove(id),
        }
    }
}

/// The model after removing whatever document lives at `p`, if any.
pub open spec fn remove_by_path_model(m: IndexModel, p: Seq<char>) -> IndexModel {
    if m.path_to_id.contains_key(p) {
        remove_model(m, m.path_to_id[p])
    } else {
        m
    }
}

/// The model after an upsert: any previous document at the same path is
/// torn down completely, then the new document is added.
pub open spec fn upsert_model(m: IndexModel, d: DocView) -> IndexModel {
    add_model(remove_by_path_model(m, d.path), d)
}

/// When an upsert is admissible: the document's id is either new to the
/// index or the id of the live document at the same path.
pub open spec fn upsert_ok(m: IndexModel, d: DocView) -> bool {
    !m.documents.contains_key(d.id) || (m.path_to_id.contains_key(d.path) && m.path_to_id[d.path]
        == d.id)
}

/// The ids matched by a query: the union of the posting lists of the
/// query's tokens, with absent tokens contributing nothing.
pub open spec fn search_model(m: IndexModel, q: Seq<char>) -> Set<u128> {
    Set::new(
        |id: u128|
            exists|t: Seq<char>|
                #![auto]
                token_set_of(q).contains(t) && m.postings.contains_key(t) && m.postings[t].contains(
                    id,
                ),
    )
}

/// Recording one more token `t` for document `id` takes the postings
/// map one step further towards `postings_with_doc`.
proof fn lemma_postings_add_step(
    p: Map<Seq<char>, Set<u128>>,
    s: Set<Seq<char>>,
    id: u128,
    t: Seq<char>,
)
    ensures
        postings_with_doc(p, s, id).insert(
            t,
            (if postings_with_doc(p, s, id).contains_key(t) {
                postings_with_doc(p, s, id)[t]
            } else {
                Set::empty()
            }).insert(id),
        ) =~~= postings_with_doc(p, s.insert(t), id),
{
    let m = postings_with_doc(p, s, id);
    let lhs = m.insert(
        t,
        (if m.contains_key(t) {
            m[t]
        } else {
            Set::empty()
        }).insert(id),
    );
    let rhs = postings_with_doc(p, s.insert(t), id);
    assert(lhs.dom() =~= rhs.dom());
    assert forall|k: Seq<char>| #[trigger] lhs.contains_key(k) implies lhs[k] =~= rhs[k] by {
        if k != t {
            assert(lhs[k] == m[k]);
        } else {
            if s.contains(t) {
                if p.contains_key(t) {
                    assert(lhs[t] =~= p[t].insert(id));
                } else {
                    assert(lhs[t] =~= Set::empty().insert(id));
                }
            }
        }
    }
    assert(lhs =~~= rhs);
}

/// Adding a document with a fresh id and a fresh path keeps the index
/// model well-formed.
pub proof fn lemma_add_preserves_wf(m: IndexModel, d: DocView)
    requires
        wf_model(m),
        !m.documents.contains_key(d.id),
        !m.path_to_id.contains_key(d.path),
    ensures
        wf_model(add_model(m, d)),
{
    let ts = token_set_of(d.content);
    let m2 = add_model(m, d);
    vstd::seq_lib::seq_to_set_is_finite(crate::tokenizer::tokens_of(d.content));
    assert(ts.finite());
    assert forall|t: Seq<char>| #[trigger]
        m.postings.contains_key(t) implies !m.postings[t].contains(d.id) by {
        if m.postings[t].contains(d.id) {
            assert(m.doc_tokens.contains_key(d.id));
            assert(m.documents.contains_key(d.id));
        }
    }
    assert forall|id: u128| #[trigger]
        m.documents.contains_key(id) implies m.documents[id].path != d.path by {
        if m.documents[id].path == d.path {
            assert(m.path_to_id.contains_key(d.path));
        }
    }
    assert forall|t: Seq<char>| #[trigger] m2.postings.contains_key(t) implies (
    m2.postings[t].finite() && m2.postings[t].len() > 0) by {
        if ts.contains(t) {
            assert(m2.postings[t].contains(d.id));
        }
    }
    assert forall|t: Seq<char>, id: u128|
        m2.postings.contains_key(t) && #[trigger] m2.postings[t].contains(
            id,
        ) implies m2.doc_tokens.contains_key(id) && m2.doc_tokens[id].contains(t) by {
        if ts.contains(t) {
            if id != d.id {
                if m.postings.contains_key(t) {
                    assert(m.postings[t].contains(id));
                } else {
                    assert(!Set::<u128>::empty().contains(id));
                }
            }
        } else {
            assert(m.postings[t].contains(id));
        }
    }
    assert forall|id: u128, t: Seq<char>|
        m2.doc_tokens.contains_key(id) && #[trigger] m2.doc_tokens[id].contains(
            t,
        ) implies m2.postings.contains_key(t) && m2.postings[t].contains(id) by {
        if id == d.id {
            assert(ts.contains(t));
        } else {
            assert(m.doc_tokens[id].contains(t));
            assert(m.postings.contains_key(t));
            assert(m.postings[t].contains(id));
        }
    }
    assert forall|id: u128| #[trigger] m2.documents.contains_key(id) implies {
        let dd = m2.documents[id];
        &&& dd.id == id
        &&& m2.path_to_id.contains_key(dd.path)
        &&& m2.path_to_id[dd.path] == id
        &&& m2.doc_tokens[id] == token_set_of(dd.content)
    } by {
        if id != d.id {
            assert(m.documents.contains_key(id));
            assert(m.documents[id].path != d.path);
        }
    }
    assert forall|p: Seq<char>| #[trigger]
        m2.path_to_id.contains_key(p) implies m2.documents.contains_key(m2.path_to_id[p])
        && m2.documents[m2.path_to_id[p]].path == p by {
        if p != d.path {
            assert(m.path_to_id.contains_key(p));
            assert(m.path_to_id[p] != d.id);
        }
    }
}

/// Discarding document `id` under one more token `t` takes the postings
/// map one step further towards `postings_without_doc`.
proof fn lemma_postings_discard_step(
    p: Map<Seq<char>, Set<u128>>,
    s: Set<Seq<char>>,
    id: u128,
    t: Seq<char>,
)
    ensures
        crate::postings::discard_posting(postings_without_doc(p, s, id), t, id)
            =~~= postings_without_doc(p, s.insert(t), id),
{
    let m = postings_without_doc(p, s, id);
    let lhs = crate::postings::discard_posting(m, t, id);
    let rhs = postings_without_doc(p, s.insert(t), id);
    if m.contains_key(t) && s.contains(t) {
        assert(!p[t].remove(id).is_empty());
        assert(m[t].remove(id) =~= p[t].remove(id));
    }
    assert forall|k: Seq<char>| lhs.contains_key(k) <==> rhs.contains_key(k) by {
        if k == t {
            if m.contains_key(t) {
                if s.contains(t) {
                    assert(!m[t].remove(id).is_empty());
                } else {
                    assert(m[t] == p[t]);
                }
            }
        }
    }
    assert forall|k: Seq<char>| #[trigger] rhs.contains_key(k) implies lhs[k] =~= rhs[k] by {
        if k == t {
            if s.contains(t) {
                assert(lhs[k] =~= p[t].remove(id));
            } else {
                assert(m[t] == p[t]);
                assert(!p[t].remove(id).is_empty());
                assert(lhs[k] =~= p[t].remove(id));
            }
        } else {
            assert(lhs[k] == m[k]);
        }
    }
    assert(lhs.dom() =~= rhs.dom());
    assert(lhs =~~= rhs);
}

/// Removing a document keeps the index model well-formed.
pub proof fn lemma_remove_preserves_wf(m: IndexModel, id: u128)
    requires
        wf_model(m),
    ensures
        wf_model(remove_model(m, id)),
{
    if m.documents.contains_key(id) {
        let ts = m.doc_tokens[id];
        let m2 = remove_model(m, id);
        assert forall|t: Seq<char>| #[trigger] m2.postings.contains_key(t) implies (
        m2.postings[t].finite() && m2.postings[t].len() > 0) by {
            if ts.contains(t) {
                assert(m2.postings[t] == m.postings[t].remove(id));
                assert(m2.postings[t].finite());
                if m2.postings[t].len() == 0 {
                    m2.postings[t].lemma_len0_is_empty();
                }
            }
        }
        assert forall|t: Seq<char>, id2: u128|
            m2.postings.contains_key(t) && #[trigger] m2.postings[t].contains(
                id2,
            ) implies m2.doc_tokens.contains_key(id2) && m2.doc_tokens[id2].contains(t) by {
            if ts.contains(t) {
                assert(m.postings[t].contains(id2));
                assert(id2 != id);
            } else {
                assert(m.postings[t].contains(id2));
                if id2 == id {
                    assert(m.doc_tokens[id].contains(t));
                }
            }
        }
        assert forall|id2: u128, t: Seq<char>|
            m2.doc_tokens.contains_key(id2) && #[trigger] m2.doc_tokens[id2].contains(
                t,
            ) implies m2.postings.contains_key(t) && m2.postings[t].contains(id2) by {
            assert(id2 != id);
            assert(m.doc_tokens[id2].contains(t));
            assert(m.postings.contains_key(t));
            assert(m.postings[t].contains(id2));
            if ts.contains(t) && m.postings[t].remove(id).is_empty() {
                assert(m.postings[t].remove(id).contains(id2));
                assert(false);
            }
        }
        assert forall|id2: u128| #[trigger] m2.documents.contains_key(id2) implies {
            let dd = m2.documents[id2];
            &&& dd.id == id2
            &&& m2.path_to_id.contains_key(dd.path)
            &&& m2.path_to_id[dd.path] == id2
            &&& m2.doc_tokens[id2] == token_set_of(dd.content)
        } by {
            assert(id2 != id);
            assert(m.documents.contains_key(id2));
            assert(m.path_to_id[m.documents[id2].path] == id2);
            assert(m.path_to_id[m.documents[id].path] == id);
            assert(m.documents[id2].path != m.documents[id].path);
        }
        assert forall|p: Seq<char>| #[trigger]
            m2.path_to_id.contains_key(p) implies m2.documents.contains_key(m2.path_to_id[p])
            && m2.documents[m2.path_to_id[p]].path == p by {
            assert(p != m.documents[id].path);
            assert(m.path_to_id.contains_key(p));
            if m.path_to_id[p] == id {
                assert(m.documents[id].path == p);
            }
        }
    }
}

/// The ids matched by the first tokens of a query, read as a sequence.
pub open spec fn hits(p: Map<Seq<char>, Set<u128>>, toks: Seq<Seq<char>>) -> Set<u128> {
    Set::new(
        |id: u128|
            exists|ti: int|
                #![auto]
                0 <= ti < toks.len() && p.contains_key(toks[ti]) && p[toks[ti]].contains(id),
    )
}

/// Extending the token sequence by one token adds that token's posting
/// list to the hits (or nothing, if no document carries it).
proof fn lemma_hits_push(p: Map<Seq<char>, Set<u128>>, s: Seq<Seq<char>>, t: Seq<char>)
    ensures
        p.contains_key(t) ==> hits(p, s.push(t)) =~= hits(p, s).union(p[t]),
        !p.contains_key(t) ==> hits(p, s.push(t)) =~= hits(p, s),
{
    assert forall|id: u128| #[trigger]
        hits(p, s.push(t)).contains(id) implies hits(p, s).contains(id) || (p.contains_key(t)
        && p[t].contains(id)) by {
        let ti = choose|ti: int|
            #![auto]
            0 <= ti < s.push(t).len() && p.contains_key(s.push(t)[ti]) && p[s.push(
                t,
            )[ti]].contains(id);
        if ti < s.len() {
            assert(s.push(t)[ti] == s[ti]);
        } else {
            assert(s.push(t)[ti] == t);
        }
    }
    assert forall|id: u128| #[trigger] hits(p, s).contains(id) implies hits(p, s.push(t)).contains(
        id,
    ) by {
        let ti = choose|ti: int|
            #![auto]
            0 <= ti < s.len() && p.contains_key(s[ti]) && p[s[ti]].contains(id);
        assert(s.push(t)[ti] == s[ti]);
    }
    if p.contains_key(t) {
        assert forall|id: u128| p[t].contains(id) implies hits(p, s.push(t)).contains(id) by {
            assert(s.push(t)[s.len() as int] == t);
        }
    }
}

/// Checks that every id on a posting list carries that token in its own
/// token set.
fn check_postings_have_tokens(p: &PostingsMap, dt: &IdMap<TokenSet>) -> (r: bool)
    requires
        p.wf(),
        dt.wf(),
    ensures
        r == (forall|t: Seq<char>, id: u128|
            p@.contains_key(t) && #[trigger] p@[t].contains(id) ==> dt@.contains_key(id)
                && dt@[id].contains(t)),
{
    let entries = p.entries();
    let mut j: usize = 0;
    while j < entries.len()
        invariant
            j <= entries@.len(),
            p.wf(),
            dt.wf(),
            str_distinct_keys(entries@),
            str_map_of(entries@) == p@,
            forall|i: int| 0 <= i < entries@.len() ==> (#[trigger] entries@[i].1).wf(),
            forall|jj: int, id: u128|
                0 <= jj < j && #[trigger] entries@[jj].1@.contains(id) ==> dt@.contains_key(id)
                    && dt@[id].contains(entries@[jj].0@),
        decreases entries@.len() - j,
    {
        proof {
            crate::strmap::lemma_str_map_index(entries@, j as int);
        }
        let ids = entries[j].1.as_vec();
        let mut k: usize = 0;
        while k < ids.len()
            invariant
                k <= ids@.len(),
                j < entries@.len(),
                dt.wf(),
                str_map_of(entries@) == p@,
                str_distinct_keys(entries@),
                ids@.to_set() == entries@[j as int].1@,
                p@.contains_key(entries@[j as int].0@),
                p@[entries@[j as int].0@] == entries@[j as int].1@,
                forall|kk: int|
                    0 <= kk < k ==> dt@.contains_key(#[trigger] ids@[kk]) && dt@[ids@[kk]].contains(
                        entries@[j as int].0@,
                    ),
            decreases ids@.len() - k,
        {
            let ok = match dt.get(ids[k]) {
                Some(ts) => ts.contains(&entries[j].0),
                None => false,
            };
            if !ok {
                proof {
                    assert(ids@.to_set().contains(ids@[k as int]));
                    assert(p@[entries@[j as int].0@].contains(ids@[k as int]));
                }
                return false;
            }
            k = k + 1;
        }
        proof {
            assert forall|id: u128| #[trigger]
                entries@[j as int].1@.contains(id) implies dt@.contains_key(id) && dt@[id].contains(
                entries@[j as int].0@,
            ) by {
                let kk = choose|kk: int| 0 <= kk < ids@.len() && ids@[kk] == id;
                assert(dt@.contains_key(ids@[kk]));
            }
        }
        j = j + 1;
    }
    proof {
        assert forall|t: Seq<char>, id: u128|
            p@.contains_key(t) && #[trigger] p@[t].contains(id) implies dt@.contains_key(id)
            && dt@[id].contains(t) by {
            crate::strmap::lemma_str_map_contains(entries@, t);
            let jj = choose|jj: int| 0 <= jj < entries@.len() && entries@[jj].0@ == t;
            crate::strmap::lemma_str_map_index(entries@, jj);
            assert(entries@[jj].1@.contains(id));
        }
    }
    true
}

/// Checks that every token of every document's token set has a posting
/// list that names the document.
fn check_tokens_have_postings(dt: &IdMap<TokenSet>, p: &PostingsMap) -> (r: bool)
    requires
        p.wf(),
        dt.wf(),
    ensures
        r == (forall|id: u128, t: Seq<char>|
            dt@.contains_key(id) && #[trigger] dt@[id].contains(t) ==> p@.contains_key(t)
                && p@[t].contains(id)),
{
    let entries = dt.entries();
    let mut j: usize = 0;
    while j < entries.len()
        invariant
            j <= entries@.len(),
            p.wf(),
            dt.wf(),
            crate::idmap::id_distinct_keys(entries@),
            crate::idmap::id_map_of(entries@) == dt@,
            forall|jj: int, t: Seq<char>|
                0 <= jj < j && #[trigger] entries@[jj].1@.contains(t) ==> p@.contains_key(t)
                    && p@[t].contains(entries@[jj].0),
        decreases entries@.len() - j,
    {
        proof {
            crate::idmap::lemma_id_map_index(entries@, j as int);
        }
        let toks = entries[j].1.as_vec();
        let mut k: usize = 0;
        while k < toks.len()
            invariant
                k <= toks@.len(),
                j < entries@.len(),
                p.wf(),
                crate::idmap::id_map_of(entries@) == dt@,
                crate::idmap::id_distinct_keys(entries@),
                token_views(toks@).to_set() == entries@[j as int].1@,
                dt@.contains_key(entries@[j as int].0),
                dt@[entries@[j as int].0] == entries@[j as int].1@,
                forall|kk: int|
                    0 <= kk < k ==> p@.contains_key(#[trigger] toks@[kk]@) && p@[toks@[kk]@].contains(
                        entries@[j as int].0,
                    ),
            decreases toks@.len() - k,
        {
            let ok = match p.get(&toks[k]) {
                Some(ids) => ids.contains(entries[j].0),
                None => false,
            };
            if !ok {
                proof {
                    assert(token_views(toks@).to_set().contains(token_views(toks@)[k as int]));
                    assert(entries@[j as int].1@.contains(toks@[k as int]@));
                }
                return false;
            }
            k = k + 1;
        }
        proof {
            assert forall|t: Seq<char>| #[trigger]
                entries@[j as int].1@.contains(t) implies p@.contains_key(t) && p@[t].contains(
                entries@[j as int].0,
            ) by {
                let kk = choose|kk: int|
                    0 <= kk < token_views(toks@).len() && token_views(toks@)[kk] == t;
                assert(p@.contains_key(toks@[kk]@));
            }
        }
        j = j + 1;
    }
    proof {
        assert forall|id: u128, t: Seq<char>|
            dt@.contains_key(id) && #[trigger] dt@[id].contains(t) implies p@.contains_key(t)
            && p@[t].contains(id) by {
            crate::idmap::lemma_id_map_contains(entries@, id);
            let jj = choose|jj: int| 0 <= jj < entries@.len() && entries@[jj].0 == id;
            crate::idmap::lemma_id_map_index(entries@, jj);
            assert(entries@[jj].1@.contains(t));
        }
    }
    true
}

/// Checks that every document id also has a token set.
fn check_documents_have_tokens(d: &IdMap<Document>, dt: &IdMap<TokenSet>) -> (r: bool)
    requires
        d.wf(),
        dt.wf(),
    ensures
        r == (forall|id: u128| #[trigger] d@.contains_key(id) ==> dt@.contains_key(id)),
{
    let entries = d.entries();
    let mut j: usize = 0;
    while j < entries.len()
        invariant
            j <= entries@.len(),
            dt.wf(),
            crate::idmap::id_distinct_keys(entries@),
            crate::idmap::id_map_of(entries@) == d@,
            forall|jj: int| 0 <= jj < j ==> dt@.contains_key(#[trigger] entries@[jj].0),
        decreases entries@.len() - j,
    {
        proof {
            crate::idmap::lemma_id_map_index(entries@, j as int);
        }
        if !dt.contains_key(entries[j].0) {
            return false;
        }
        j = j + 1;
    }
    proof {
        assert forall|id: u128| #[trigger] d@.contains_key(id) implies dt@.contains_key(id) by {
            crate::idmap::lemma_id_map_contains(entries@, id);
            let jj = choose|jj: int| 0 <= jj < entries@.len() && entries@[jj].0 == id;
            assert(dt@.contains_key(entries@[jj].0));
        }
    }
    true
}

/// Checks that every token set belongs to a stored document.
fn check_tokens_have_documents(dt: &IdMap<TokenSet>, d: &IdMap<Document>) -> (r: bool)
    requires
        d.wf(),
        dt.wf(),
    ensures
        r == (forall|id: u128| #[trigger] dt@.contains_key(id) ==> d@.contains_key(id)),
{
    let entries = dt.entries();
    let mut j: usize = 0;
    while j < entries.len()
        invariant
            j <= entries@.len(),
            d.wf(),
            crate::idmap::id_distinct_keys(entries@),
            crate::idmap::id_map_of(entries@) == dt@,
            forall|jj: int| 0 <= jj < j ==> d@.contains_key(#[trigger] entries@[jj].0),
        decreases entries@.len() - j,
    {
        proof {
            crate::idmap::lemma_id_map_index(entries@, j as int);
        }
        if !d.contains_key(entries[j].0) {
            return false;
        }
        j = j + 1;
    }
    proof {
        assert forall|id: u128| #[trigger] dt@.contains_key(id) implies d@.contains_key(id) by {
            crate::idmap::lemma_id_map_contains(entries@, id);
            let jj = choose|jj: int| 0 <= jj < entries@.len() && entries@[jj].0 == id;
            assert(d@.contains_key(entries@[jj].0));
        }
    }
    true
}

/// Checks, for every stored document, that its record carries its own
/// id, that its path binds back to it, and that its stored token set is
/// exactly the tokens of its content.
fn check_document_details(d: &IdMap<Document>, pt: &StrMap<u128>, dt: &IdMap<TokenSet>) -> (r:
    bool)
    requires
        d.wf(),
        pt.wf(),
        dt.wf(),
        forall|id: u128| #[trigger] d@.contains_key(id) ==> dt@.contains_key(id),
    ensures
        r == (forall|id: u128| #[trigger] d@.contains_key(id) ==> {
            let doc = d@[id];
            &&& doc.id == id
            &&& pt@.contains_key(doc.path)
            &&& pt@[doc.path] == id
            &&& dt@[id] == token_set_of(doc.content)
        }),
{
    let entries = d.entries();
    let mut j: usize = 0;
    while j < entries.len()
        invariant
            j <= entries@.len(),
            pt.wf(),
            dt.wf(),
            crate::idmap::id_distinct_keys(entries@),
            crate::idmap::id_map_of(entries@) == d@,
            forall|id: u128| #[trigger] d@.contains_key(id) ==> dt@.contains_key(id),
            forall|jj: int| 0 <= jj < j ==> {
                let doc = (#[trigger] entries@[jj]).1@;
                &&& doc.id == entries@[jj].0
                &&& pt@.contains_key(doc.path)
                &&& pt@[doc.path] == entries@[jj].0
                &&& dt@[entries@[jj].0] == token_set_of(doc.content)
            },
        decreases entries@.len() - j,
    {
        proof {
            crate::idmap::lemma_id_map_index(entries@, j as int);
        }
        if entries[j].1.id != entries[j].0 {
            return false;
        }
        let path_ok = match pt.get(&entries[j].1.path) {
            Some(v) => *v == entries[j].0,
            None => false,
        };
        if !path_ok {
            return false;
        }
        let tokens = tokenize(entries[j].1.content.as_str());
        let computed = TokenSet::from_tokens(&tokens);
        let tokens_ok = match dt.get(entries[j].0) {
            Some(ts) => ts.same_tokens(&computed),
            None => false,
        };
        if !tokens_ok {
            proof {
                assert(dt@.contains_key(entries@[j as int].0));
            }
            return false;
        }
        j = j + 1;
    }
    proof {
        assert forall|id: u128| #[trigger] d@.contains_key(id) implies {
            let doc = d@[id];
            &&& doc.id == id
            &&& pt@.contains_key(doc.path)
            &&& pt@[doc.path] == id
            &&& dt@[id] == token_set_of(doc.content)
        } by {
            crate::idmap::lemma_id_map_contains(entries@, id);
            let jj = choose|jj: int| 0 <= jj < entries@.len() && entries@[jj].0 == id;
            crate::idmap::lemma_id_map_index(entries@, jj);
            assert(entries@[jj].1@.id == entries@[jj].0);
        }
    }
    true
}

/// Checks that every path binding points at a stored document that
/// carries that very path.
fn check_paths_have_documents(pt: &StrMap<u128>, d: &IdMap<Document>) -> (r: bool)
    requires
        pt.wf(),
        d.wf(),
    ensures
        r == (forall|p: Seq<char>| #[trigger]
            pt@.contains_key(p) ==> d@.contains_key(pt@[p]) && d@[pt@[p]].path == p),
{
    let entries = pt.entries();
    let mut j: usize = 0;
    while j < entries.len()
        invariant
            j <= entries@.len(),
            d.wf(),
            str_distinct_keys(entries@),
            str_map_of(entries@) == pt@,
            forall|jj: int| 0 <= jj < j ==> d@.contains_key(#[trigger] entries@[jj].1)
                && d@[entries@[jj].1].path == entries@[jj].0@,
        decreases entries@.len() - j,
    {
        proof {
            crate::strmap::lemma_str_map_index(entries@, j as int);
        }
        let ok = match d.get(entries[j].1) {
            Some(doc) => doc.path == entries[j].0,
            None => false,
        };
        if !ok {
            return false;
        }
        j = j + 1;
    }
    proof {
        assert forall|p: Seq<char>| #[trigger] pt@.contains_key(p) implies d@.contains_key(
            pt@[p],
        ) && d@[pt@[p]].path == p by {
            crate::strmap::lemma_str_map_contains(entries@, p);
            let jj = choose|jj: int| 0 <= jj < entries@.len() && entries@[jj].0@ == p;
            crate::strmap::lemma_str_map_index(entries@, jj);
            assert(d@.contains_key(entries@[jj].1));
        }
    }
    true
}

/// The inverted index. All queries and updates go through its methods,
/// which keep the four maps mutually consistent (`wf`).
pub struct Index {
    postings: PostingsMap,
    documents: IdMap<Document>,
    path_to_id: StrMap<u128>,
    doc_tokens: IdMap<TokenSet>,
}

impl View for Index {
    type V = IndexModel;

    closed spec fn view(&self) -> IndexModel {
        IndexModel {
            postings: self.postings@,
            documents: self.documents@,
            path_to_id: self.path_to_id@,
            doc_tokens: self.doc_tokens@,
        }
    }
}

impl Index {
    /// The backing containers are well-formed.
    pub closed spec fn rep_wf(self) -> bool {
        &&& self.postings.wf()
        &&& self.documents.wf()
        &&& self.path_to_id.wf()
        &&& self.doc_tokens.wf()
    }

    /// A well-formed index: sound containers and mutually consistent maps.
    pub open spec fn wf(self) -> bool {
        &&& self.rep_wf()
        &&& wf_model(self@)
    }

    /// An empty index.
    pub fn new() -> (r: Index)
        ensures
            r.wf(),
            r@ == empty_model(),
    {
        let r = Index {
            postings: PostingsMap::new(),
            documents: IdMap::new(),
            path_to_id: StrMap::new(),
            doc_tokens: IdMap::new(),
        };
        proof {
            assert(r@ =~~= empty_model());
        }
        r
    }

    /// Assembles an index from four pre-built maps, accepting them only
    /// when they satisfy every invariant of `wf_model`. This is how a
    /// deserialized snapshot becomes an index again: the stored token
    /// sets are adopted verbatim, after checking that they agree with
    /// the stored contents and postings.
    pub fn from_parts(
        postings: PostingsMap,
        documents: IdMap<Document>,
        path_to_id: StrMap<u128>,
        doc_tokens: IdMap<TokenSet>,
    ) -> (r: Option<Index>)
        requires
            postings.wf(),
            documents.wf(),
            path_to_id.wf(),
            doc_tokens.wf(),
        ensures
            ({
                let m = IndexModel {
                    postings: postings@,
                    documents: documents@,
                    path_to_id: path_to_id@,
                    doc_tokens: doc_tokens@,
                };
                &&& (r is Some <==> wf_model(m))
                &&& match r {
                    Some(ix) => ix.wf() && ix@ == m,
                    None => true,
                }
            }),
    {
        let ghost m = IndexModel {
            postings: postings@,
            documents: documents@,
            path_to_id: path_to_id@,
            doc_tokens: doc_tokens@,
        };
        proof {
            postings.lemma_values_nonempty();
        }
        if !check_postings_have_tokens(&postings, &doc_tokens) {
            proof {
                if wf_model(m) {
                    assert forall|t: Seq<char>, id: u128|
                        postings@.contains_key(t) && #[trigger] postings@[t].contains(
                            id,
                        ) implies doc_tokens@.contains_key(id) && doc_tokens@[id].contains(t) by {
                        assert(m.postings[t].contains(id));
                    }
                }
            }
            return None;
        }
        if !check_tokens_have_postings(&doc_tokens, &postings) {
            proof {
                if wf_model(m) {
                    assert forall|id: u128, t: Seq<char>|
                        doc_tokens@.contains_key(id) && #[trigger] doc_tokens@[id].contains(
                            t,
                        ) implies postings@.contains_key(t) && postings@[t].contains(id) by {
                        assert(m.doc_tokens[id].contains(t));
                    }
                }
            }
            return None;
        }
        if !check_documents_have_tokens(&documents, &doc_tokens) {
            return None;
        }
        if !check_tokens_have_documents(&doc_tokens, &documents) {
            proof {
                if wf_model(m) {
                    assert forall|id: u128| #[trigger]
                        doc_tokens@.contains_key(id) implies documents@.contains_key(id) by {
                        assert(m.doc_tokens.contains_key(id));
                    }
                }
            }
            return None;
        }
        if !check_document_details(&documents, &path_to_id, &doc_tokens) {
            return None;
        }
        if !check_paths_have_documents(&path_to_id, &documents) {
            return None;
        }
        Some(Index { postings, documents, path_to_id, doc_tokens })
    }

    /// Flattens the four maps into a snapshot, verbatim: what `restore`
    /// reads back describes exactly this index.
    pub fn snapshot(&self) -> (r: crate::snapshot::Snapshot)
        requires
            self.wf(),
        ensures
            crate::snapshot::snapshot_ok(r),
            crate::snapshot::snapshot_model(r) == self@,
    {
        let pentries = self.postings.entries();
        let mut postings: Vec<(String, Vec<u128>)> = Vec::new();
        let mut j: usize = 0;
        while j < pentries.len()
            invariant
                j <= pentries@.len(),
                self.wf(),
                str_distinct_keys(pentries@),
                str_map_of(pentries@) == self@.postings,
                forall|i: int| 0 <= i < pentries@.len() ==> (#[trigger] pentries@[i].1).wf(),
                postings@.len() == j,
                forall|k: int|
                    0 <= k < j ==> (#[trigger] postings@[k]).0@ == pentries@[k].0@
                        && postings@[k].1@.to_set() == pentries@[k].1@
                        && postings@[k].1@.no_duplicates() && postings@[k].1@.len() > 0,
            decreases pentries@.len() - j,
        {
            proof {
                lemma_str_map_index(pentries@, j as int);
                self.postings.lemma_values_nonempty();
            }
            let ids = pentries[j].1.to_vec();
            proof {
                ids@.unique_seq_to_set();
            }
            postings.push((pentries[j].0.clone(), ids));
            j = j + 1;
        }
        proof {
            crate::postings::lemma_converted_postings(pentries@, postings@);
            assert forall|a: int, b: int| 0 <= a < b < postings@.len() implies postings@[a].0@
                != postings@[b].0@ by {
                assert(postings@[a].0@ == pentries@[a].0@);
                assert(postings@[b].0@ == pentries@[b].0@);
            }
        }
        let dentries = self.documents.entries();
        let mut documents: Vec<Document> = Vec::new();
        let mut j: usize = 0;
        while j < dentries.len()
            invariant
                j <= dentries@.len(),
                self.wf(),
                crate::idmap::id_distinct_keys(dentries@),
                crate::idmap::id_map_of(dentries@) == self@.documents,
                documents@.len() == j,
                forall|k: int|
                    0 <= k < j ==> (#[trigger] documents@[k])@ == dentries@[k].1@
                        && documents@[k].id == dentries@[k].0,
            decreases dentries@.len() - j,
        {
            proof {
                crate::idmap::lemma_id_map_index(dentries@, j as int);
                assert(self@.documents[dentries@[j as int].0].id == dentries@[j as int].0);
            }
            documents.push(dentries[j].1.duplicate());
            j = j + 1;
        }
        proof {
            crate::snapshot::lemma_converted_documents(dentries@, documents@);
            assert forall|a: int, b: int| 0 <= a < b < documents@.len() implies documents@[a].id
                != documents@[b].id by {
                assert(documents@[a].id == dentries@[a].0);
                assert(documents@[b].id == dentries@[b].0);
            }
        }
        let ptentries = self.path_to_id.entries();
        let mut path_to_id: Vec<(String, u128)> = Vec::new();
        let mut j: usize = 0;
        while j < ptentries.len()
            invariant
                j <= ptentries@.len(),
                self.wf(),
                str_distinct_keys(ptentries@),
                str_map_of(ptentries@) == self@.path_to_id,
                path_to_id@ == ptentries@.take(j as int),
            decreases ptentries@.len() - j,
        {
            path_to_id.push((ptentries[j].0.clone(), ptentries[j].1));
            proof {
                assert(path_to_id@ =~= ptentries@.take(j as int + 1));
            }
            j = j + 1;
        }
        proof {
            assert(path_to_id@ =~= ptentries@);
        }
        let dtentries = self.doc_tokens.entries();
        let mut doc_tokens: Vec<(u128, Vec<String>)> = Vec::new();
        let mut j: usize = 0;
        while j < dtentries.len()
            invariant
                j <= dtentries@.len(),
                crate::idmap::id_distinct_keys(dtentries@),
                crate::idmap::id_map_of(dtentries@) == self@.doc_tokens,
                doc_tokens@.len() == j,
                forall|k: int|
                    0 <= k < j ==> (#[trigger] doc_tokens@[k]).0 == dtentries@[k].0 && token_views(
                        doc_tokens@[k].1@,
                    ).to_set() == dtentries@[k].1@,
            decreases dtentries@.len() - j,
        {
            doc_tokens.push((dtentries[j].0, dtentries[j].1.to_vec()));
            j = j + 1;
        }
        proof {
            crate::snapshot::lemma_converted_doc_tokens(dtentries@, doc_tokens@);
            assert forall|a: int, b: int| 0 <= a < b < doc_tokens@.len() implies doc_tokens@[a].0
                != doc_tokens@[b].0 by {
                assert(doc_tokens@[a].0 == dtentries@[a].0);
                assert(doc_tokens@[b].0 == dtentries@[b].0);
            }
        }
        let r = crate::snapshot::Snapshot { postings, documents, path_to_id, doc_tokens };
        proof {
            assert(crate::snapshot::snapshot_model(r) =~~= self@);
        }
        r
    }

    /// Adds a document whose id is new to the index and whose path has no
    /// live document yet. Its content is tokenized; every map learns of it.
    pub fn add_document(&mut self, doc: Document)
        requires
            old(self).wf(),
            !old(self)@.documents.contains_key(doc.id),
            !old(self)@.path_to_id.contains_key(doc.path@),
        ensures
            final(self).wf(),
            final(self)@ == add_model(old(self)@, doc@),
    {
        let ghost m0 = self@;
        let ghost d = doc@;
        let tokens = tokenize(doc.content.as_str());
        let tset = TokenSet::from_tokens(&tokens);
        proof {
            assert(tset@ == token_set_of(d.content));
        }
        let ghost pstart = self.postings@;
        {
            let tvec = tset.as_vec();
            let mut j: usize = 0;
            proof {
                assert(token_views(tvec@).take(0).to_set() =~= Set::empty());
                assert(postings_with_doc(pstart, Set::empty(), d.id) =~~= pstart);
            }
            while j < tvec.len()
                invariant
                    j <= tvec@.len(),
                    d.id == doc.id,
                    self.postings.wf(),
                    self.postings@ == postings_with_doc(
                        pstart,
                        token_views(tvec@).take(j as int).to_set(),
                        d.id,
                    ),
                    self.documents == old(self).documents,
                    self.path_to_id == old(self).path_to_id,
                    self.doc_tokens == old(self).doc_tokens,
                decreases tvec@.len() - j,
            {
                let t = &tvec[j];
                let ghost sj = token_views(tvec@).take(j as int).to_set();
                self.postings.add_id(t, doc.id);
                proof {
                    lemma_postings_add_step(pstart, sj, d.id, t@);
                    assert(t@ == token_views(tvec@)[j as int]);
                    assert(token_views(tvec@).take(j as int).push(t@) =~= token_views(
                        tvec@,
                    ).take(j as int + 1));
                    token_views(tvec@).take(j as int).lemma_push_to_set_commute(t@);
                    assert(self.postings@ == postings_with_doc(
                        pstart,
                        token_views(tvec@).take(j as int + 1).to_set(),
                        d.id,
                    ));
                }
                j = j + 1;
            }
            proof {
                assert(token_views(tvec@).take(tvec@.len() as int) =~= token_views(tvec@));
                assert(self.postings@ == postings_with_doc(pstart, tset@, d.id));
            }
        }
        let path_key = doc.path.clone();
        self.path_to_id.insert(path_key, doc.id);
        self.doc_tokens.insert(doc.id, tset);
        self.documents.insert(doc.id, doc);
        proof {
            assert(self@ =~~= add_model(m0, d));
            lemma_add_preserves_wf(m0, d);
        }
    }

    /// Removes the document stored under `doc_id`. Its postings are
    /// discarded token by token, orphaned tokens disappear entirely, and
    /// the other three maps forget it. Unknown ids are a no-op.
    pub fn remove_document(&mut self, doc_id: u128)
        requires
            old(self).wf(),
        ensures
            final(self).wf(),
            final(self)@ == remove_model(old(self)@, doc_id),
    {
        let ghost m0 = self@;
        let path = match self.documents.get(doc_id) {
            Some(doc) => doc.path.clone(),
            None => {
                return ;
            },
        };
        proof {
            assert(m0.documents.contains_key(doc_id));
            assert(path@ == m0.documents[doc_id].path);
        }
        self.path_to_id.remove(&path);
        let toks = match self.doc_tokens.take(doc_id) {
            Some(t) => t,
            None => {
                proof {
                    assert(false);
                }
                return ;
            },
        };
        let ghost pstart = m0.postings;
        {
            let tvec = toks.as_vec();
            let mut j: usize = 0;
            proof {
                assert(token_views(tvec@).take(0).to_set() =~= Set::empty());
                assert(postings_without_doc(pstart, Set::empty(), doc_id) =~~= pstart);
            }
            while j < tvec.len()
                invariant
                    j <= tvec@.len(),
                    self.postings.wf(),
                    self.postings@ == postings_without_doc(
                        pstart,
                        token_views(tvec@).take(j as int).to_set(),
                        doc_id,
                    ),
                    self.documents == old(self).documents,
                    self.path_to_id.wf(),
                    self.path_to_id@ == m0.path_to_id.remove(path@),
                    self.doc_tokens.wf(),
                    self.doc_tokens@ == m0.doc_tokens.remove(doc_id),
                decreases tvec@.len() - j,
            {
                let t = &tvec[j];
                let ghost sj = token_views(tvec@).take(j as int).to_set();
                self.postings.remove_id(t, doc_id);
                proof {
                    lemma_postings_discard_step(pstart, sj, doc_id, t@);
                    assert(t@ == token_views(tvec@)[j as int]);
                    assert(token_views(tvec@).take(j as int).push(t@) =~= token_views(
                        tvec@,
                    ).take(j as int + 1));
                    token_views(tvec@).take(j as int).lemma_push_to_set_commute(t@);
                    assert(self.postings@ == postings_without_doc(
                        pstart,
                        token_views(tvec@).take(j as int + 1).to_set(),
                        doc_id,
                    ));
                }
                j = j + 1;
            }
            proof {
                assert(token_views(tvec@).take(tvec@.len() as int) =~= token_views(tvec@));
                assert(token_views(tvec@).to_set() == m0.doc_tokens[doc_id]);
                assert(self.postings@ == postings_without_doc(
                    pstart,
                    m0.doc_tokens[doc_id],
                    doc_id,
                ));
            }
        }
        self.documents.remove(doc_id);
        proof {
            assert(self@ =~~= remove_model(m0, doc_id));
            lemma_remove_preserves_wf(m0, doc_id);
        }
    }

    /// Removes whatever document lives at `path`; a no-op when the path
    /// is unknown.
    pub fn remove_document_by_path(&mut self, path: &String)
        requires
            old(self).wf(),
        ensures
            final(self).wf(),
            final(self)@ == remove_by_path_model(old(self)@, path@),
    {
        let id_opt = match self.path_to_id.get(path) {
            Some(v) => Some(*v),
            None => None,
        };
        match id_opt {
            Some(doc_id) => self.remove_document(doc_id),
            None => {},
        }
    }

    /// Inserts a document keyed by its path: any previous document at the
    /// same path is removed completely first, so stale tokens never
    /// linger. The id may be new, or may be the id of the document being
    /// replaced (as when the synchronizer re-reads a changed file).
    pub fn upsert_document(&mut self, doc: Document)
        requires
            old(self).wf(),
            upsert_ok(old(self)@, doc@),
        ensures
            final(self).wf(),
            final(self)@ == upsert_model(old(self)@, doc@),
    {
        let ghost m0 = self@;
        let existing = match self.path_to_id.get(&doc.path) {
            Some(v) => Some(*v),
            None => None,
        };
        if let Some(eid) = existing {
            self.remove_document(eid);
            proof {
                assert(m0.documents.contains_key(eid));
                assert(m0.documents[eid].path == doc.path@);
                assert(!self@.path_to_id.contains_key(doc.path@));
                assert(!self@.documents.contains_key(doc.id));
            }
        }
        self.add_document(doc);
        proof {
            assert(self@ == upsert_model(m0, doc@));
        }
    }

    /// Answers a free-text query: the query is tokenized like document
    /// content, and the result is the union of the posting lists of its
    /// tokens, without duplicates and in no particular order. Unknown
    /// tokens contribute nothing; an empty query matches nothing.
    pub fn search_query(&self, query: &str) -> (r: Vec<u128>)
        requires
            self.wf(),
        ensures
            r@.no_duplicates(),
            r@.to_set() == search_model(self@, query@),
    {
        let qtokens = tokenize(query);
        let ghost qv = token_views(qtokens@);
        let mut found = IdSet::new();
        let mut j: usize = 0;
        proof {
            assert(found@ =~= hits(self@.postings, qv.take(0)));
        }
        while j < qtokens.len()
            invariant
                j <= qtokens@.len(),
                qv == token_views(qtokens@),
                self.wf(),
                found.wf(),
                found@ == hits(self@.postings, qv.take(j as int)),
            decreases qtokens@.len() - j,
        {
            let ghost sj = qv.take(j as int);
            match self.postings.get(&qtokens[j]) {
                Some(pset) => {
                    let ids = pset.as_vec();
                    let ghost pj = self@.postings[qv[j as int]];
                    let mut k: usize = 0;
                    proof {
                        assert(ids@.take(0).to_set() =~= Set::empty());
                        assert(found@ =~= hits(self@.postings, sj).union(ids@.take(0).to_set()));
                    }
                    while k < ids.len()
                        invariant
                            k <= ids@.len(),
                            found.wf(),
                            found@ == hits(self@.postings, sj).union(ids@.take(k as int).to_set()),
                        decreases ids@.len() - k,
                    {
                        found.insert(ids[k]);
                        proof {
                            assert(ids@.take(k as int).push(ids@[k as int]) =~= ids@.take(
                                k as int + 1,
                            ));
                            ids@.take(k as int).lemma_push_to_set_commute(ids@[k as int]);
                            assert(hits(self@.postings, sj).union(
                                ids@.take(k as int).to_set(),
                            ).insert(ids@[k as int]) =~= hits(self@.postings, sj).union(
                                ids@.take(k as int + 1).to_set(),
                            ));
                        }
                        k = k + 1;
                    }
                    proof {
                        assert(ids@.take(ids@.len() as int) =~= ids@);
                        lemma_hits_push(self@.postings, sj, qv[j as int]);
                        assert(sj.push(qv[j as int]) =~= qv.take(j as int + 1));
                        assert(found@ =~= hits(self@.postings, qv.take(j as int + 1)));
                    }
                },
                None => {
                    proof {
                        lemma_hits_push(self@.postings, sj, qv[j as int]);
                        assert(sj.push(qv[j as int]) =~= qv.take(j as int + 1));
                        assert(found@ =~= hits(self@.postings, qv.take(j as int + 1)));
                    }
                },
            }
            j = j + 1;
        }
        proof {
            assert(qv.take(qtokens@.len() as int) =~= qv);
            assert forall|id: u128|
                hits(self@.postings, qv).contains(id) <==> search_model(self@, query@).contains(
                    id,
                ) by {
                if hits(self@.postings, qv).contains(id) {
                    let ti = choose|ti: int|
                        #![auto]
                        0 <= ti < qv.len() && self@.postings.contains_key(qv[ti])
                            && self@.postings[qv[ti]].contains(id);
                    assert(token_set_of(query@).contains(qv[ti]));
                }
                if search_model(self@, query@).contains(id) {
                    let t = choose|t: Seq<char>|
                        #![auto]
                        token_set_of(query@).contains(t) && self@.postings.contains_key(t)
                            && self@.postings[t].contains(id);
                    let ti = choose|ti: int| 0 <= ti < qv.len() && qv[ti] == t;
                    assert(0 <= ti < qv.len() && self@.postings.contains_key(qv[ti])
                        && self@.postings[qv[ti]].contains(id));
                }
            }
            assert(found@ =~= search_model(self@, query@));
        }
        found.into_vec()
    }

    /// The document stored under `doc_id`, if any.
    pub fn get_document(&self, doc_id: u128) -> (r: Option<&Document>)
        requires
            self.wf(),
        ensures
            match r {
                Some(d) => self@.documents.contains_key(doc_id) && d@ == self@.documents[doc_id],
                None => !self@.documents.contains_key(doc_id),
            },
    {
        self.documents.get(doc_id)
    }

    /// The id of the live document at `path`, if any.
    pub fn path_id(&self, path: &String) -> (r: Option<u128>)
        requires
            self.wf(),
        ensures
            match r {
                Some(id) => self@.path_to_id.contains_key(path@) && id == self@.path_to_id[path@],
                None => !self@.path_to_id.contains_key(path@),
            },
    {
        match self.path_to_id.get(path) {
            Some(id) => Some(*id),
            None => None,
        }
    }

    /// The posting list of `token`, if any document carries it.
    pub fn postings_for(&self, token: &String) -> (r: Option<&IdSet>)
        requires
            self.wf(),
        ensures
            match r {
                Some(s) => self@.postings.contains_key(token@) && s@ == self@.postings[token@]
                    && s.wf(),
                None => !self@.postings.contains_key(token@),
            },
    {
        self.postings.get(token)
    }

    /// Whether any document carries `token`.
    pub fn contains_token(&self, token: &String) -> (r: bool)
        requires
            self.wf(),
        ensures
            r == self@.postings.contains_key(token@),
    {
        self.postings.contains_key(token)
    }

    /// How many distinct tokens have a posting list.
    pub fn posting_count(&self) -> (r: usize)
        requires
            self.wf(),
        ensures
            r == self@.postings.dom().len(),
            self@.postings.dom().finite(),
    {
        self.postings.len()
    }

    /// The distinct tokens of the document stored under `doc_id`, if any.
    pub fn tokens_of_document(&self, doc_id: u128) -> (r: Option<&TokenSet>)
        requires
            self.wf(),
        ensures
            match r {
                Some(ts) => self@.doc_tokens.contains_key(doc_id) && ts@
                    == self@.doc_tokens[doc_id],
                None => !self@.doc_tokens.contains_key(doc_id),
            },
    {
        self.doc_tokens.get(doc_id)
    }
}

} // verus!
