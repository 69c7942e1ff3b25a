//! Laws of the index, stated over its model and proved once and for all.

use crate::document::DocView;
use crate::index::add_model;
use crate::index::postings_with_doc;
use crate::index::postings_without_doc;
use crate::index::remove_by_path_model;
use crate::index::remove_model;
use crate::index::search_model;
use crate::index::upsert_model;
use crate::index::upsert_ok;
use crate::index::wf_model;
use crate::index::IndexModel;
use crate::index::lemma_add_preserves_wf;
use crate::index::lemma_remove_preserves_wf;
use crate::tokenizer::token_set_of;
use crate::tokenizer::tokens_of;
use vstd::prelude::*;

verus! {

/// Round-trip: adding a document whose id and path are new to the index
/// and then removing it by its id restores all four maps exactly.
pub proof fn lemma_add_remove_round_trip(m: IndexModel, d: DocView)
    requires
        wf_model(m),
        !m.documents.contains_key(d.id),
        !m.path_to_id.contains_key(d.path),
    ensures
        remove_model(add_model(m, d), d.id) == m,
{
    let ts = token_set_of(d.content);
    let m2 = add_model(m, d);
    let m3 = remove_model(m2, d.id);
    assert(m2.documents[d.id] == d);
    assert(m2.doc_tokens[d.id] == ts);
    assert(m3.documents =~= m.documents);
    assert(m3.path_to_id =~= m.path_to_id);
    assert(m3.doc_tokens =~= m.doc_tokens);
    assert forall|t: Seq<char>| #[trigger]
        m.postings.contains_key(t) implies !m.postings[t].contains(d.id) by {
        if m.postings[t].contains(d.id) {
            assert(m.doc_tokens.contains_key(d.id));
            assert(m.documents.contains_key(d.id));
        }
    }
    let padd = postings_with_doc(m.postings, ts, d.id);
    let pback = postings_without_doc(padd, ts, d.id);
    assert forall|t: Seq<char>| pback.contains_key(t) <==> m.postings.contains_key(t) by {
        if ts.contains(t) {
            if m.postings.contains_key(t) {
                assert(padd[t] == m.postings[t].insert(d.id));
                assert(padd[t].remove(d.id) =~= m.postings[t]);
                if padd[t].remove(d.id).is_empty() {
                    assert(m.postings[t].len() > 0);
                    assert(m.postings[t].len() == 0);
                }
            } else {
                assert(padd[t] == Set::empty().insert(d.id));
                assert(padd[t].remove(d.id) =~= Set::<u128>::empty());
            }
        }
    }
    assert forall|t: Seq<char>| #[trigger] m.postings.contains_key(t) implies pback[t]
        =~= m.postings[t] by {
        if ts.contains(t) {
            assert(padd[t] == m.postings[t].insert(d.id));
            assert(pback[t] =~= m.postings[t].insert(d.id).remove(d.id));
        }
    }
    assert(m3.postings.dom() =~= m.postings.dom());
    assert(m3.postings =~~= m.postings);
    assert(m3 =~~= m);
}

/// No orphan postings: in a well-formed index (and every index produced
/// by `new`, `add_document`, `remove_document` and `upsert_document` is
/// one), every token with a posting list has a non-empty one, and every
/// id in a posting list carries that token in its own token set.
pub proof fn lemma_no_orphan_postings(m: IndexModel)
    requires
        wf_model(m),
    ensures
        forall|t: Seq<char>| #[trigger] m.postings.contains_key(t) ==> m.postings[t].len() > 0,
        forall|t: Seq<char>, id: u128|
            m.postings.contains_key(t) && #[trigger] m.postings[t].contains(id)
                ==> m.doc_tokens.contains_key(id) && m.doc_tokens[id].contains(t),
{
}

/// An admissible upsert keeps the index model well-formed.
pub proof fn lemma_upsert_preserves_wf(m: IndexModel, d: DocView)
    requires
        wf_model(m),
        upsert_ok(m, d),
    ensures
        wf_model(upsert_model(m, d)),
        !remove_by_path_model(m, d.path).documents.contains_key(d.id),
        !remove_by_path_model(m, d.path).path_to_id.contains_key(d.path),
{
    let mid = remove_by_path_model(m, d.path);
    lemma_remove_preserves_wf(m, if m.path_to_id.contains_key(d.path) {
        m.path_to_id[d.path]
    } else {
        0
    });
    if m.path_to_id.contains_key(d.path) {
        let eid = m.path_to_id[d.path];
        assert(m.documents.contains_key(eid));
        assert(m.documents[eid].path == d.path);
    }
    lemma_add_preserves_wf(mid, d);
}

/// Upsert replaces and never duplicates: after upserting `d1` and then
/// `d2` at the same path, exactly one live document stands at that path;
/// a token of `d1`'s content that `d2`'s content lacks and that no other
/// document carried is gone from the postings entirely; and a token of
/// `d2`'s content that no document carried before is now carried by
/// `d2` alone.
pub proof fn lemma_upsert_replaces(
    m: IndexModel,
    d1: DocView,
    d2: DocView,
    told: Seq<char>,
    tnew: Seq<char>,
)
    requires
        wf_model(m),
        d1.path == d2.path,
        upsert_ok(m, d1),
        upsert_ok(upsert_model(m, d1), d2),
        token_set_of(d1.content).contains(told),
        !token_set_of(d2.content).contains(told),
        !m.postings.contains_key(told),
        token_set_of(d2.content).contains(tnew),
        !m.postings.contains_key(tnew),
    ensures
        ({
            let m2 = upsert_model(upsert_model(m, d1), d2);
            &&& m2.path_to_id.contains_key(d2.path) && m2.path_to_id[d2.path] == d2.id
            &&& m2.documents.contains_key(d2.id) && m2.documents[d2.id] == d2
            &&& forall|id: u128|
                #![auto]
                m2.documents.contains_key(id) && m2.documents[id].path == d2.path ==> id == d2.id
            &&& !m2.postings.contains_key(told)
            &&& m2.postings.contains_key(tnew) && m2.postings[tnew] == set![d2.id]
        }),
{
    lemma_upsert_preserves_wf(m, d1);
    let m1 = upsert_model(m, d1);
    lemma_upsert_preserves_wf(m1, d2);
    let m2 = upsert_model(m1, d2);
    let ts1 = token_set_of(d1.content);
    let ts2 = token_set_of(d2.content);
    let mida = remove_by_path_model(m, d1.path);
    assert(!mida.postings.contains_key(told));
    assert(!mida.postings.contains_key(tnew));
    assert(m1.postings.contains_key(told));
    assert(m1.postings[told] == Set::<u128>::empty().insert(d1.id));
    assert(m1.path_to_id.contains_key(d2.path) && m1.path_to_id[d2.path] == d1.id);
    let midb = remove_by_path_model(m1, d2.path);
    assert(midb == remove_model(m1, d1.id));
    assert(m1.documents.contains_key(d1.id));
    assert(m1.doc_tokens[d1.id] == ts1);
    assert(!midb.postings.contains_key(told)) by {
        assert(m1.postings[told].remove(d1.id) =~= Set::<u128>::empty());
        assert(m1.postings[told].remove(d1.id).is_empty());
    }
    assert(!midb.postings.contains_key(tnew)) by {
        if m1.postings.contains_key(tnew) {
            assert(ts1.contains(tnew));
            assert(m1.postings[tnew] == Set::<u128>::empty().insert(d1.id));
            assert(m1.postings[tnew].remove(d1.id) =~= Set::<u128>::empty());
            assert(m1.postings[tnew].remove(d1.id).is_empty());
        }
    }
    assert(m2.postings.contains_key(tnew));
    assert(m2.postings[tnew] == Set::<u128>::empty().insert(d2.id));
    assert(m2.postings[tnew] =~= set![d2.id]);
    assert(!m2.postings.contains_key(told));
    assert forall|id: u128|
        #![auto]
        m2.documents.contains_key(id) && m2.documents[id].path == d2.path implies id == d2.id by {
        assert(m2.path_to_id[m2.documents[id].path] == id);
    }
}

/// Union semantics: a query whose tokens are exactly `ta` and `tb`,
/// where `ta`'s posting list is `{d1}` and `tb`'s is `{d2}`, matches
/// exactly `{d1, d2}`.
pub proof fn lemma_search_union(
    m: IndexModel,
    q: Seq<char>,
    ta: Seq<char>,
    tb: Seq<char>,
    d1: u128,
    d2: u128,
)
    requires
        token_set_of(q) == set![ta, tb],
        m.postings.contains_key(ta),
        m.postings[ta] == set![d1],
        m.postings.contains_key(tb),
        m.postings[tb] == set![d2],
    ensures
        search_model(m, q) == set![d1, d2],
{
    assert(token_set_of(q).contains(ta));
    assert(token_set_of(q).contains(tb));
    assert(set![d1].contains(d1));
    assert(set![d2].contains(d2));
    assert forall|id: u128| #[trigger]
        search_model(m, q).contains(id) implies set![d1, d2].contains(id) by {
        let t = choose|t: Seq<char>|
            #![auto]
            token_set_of(q).contains(t) && m.postings.contains_key(t) && m.postings[t].contains(
                id,
            );
        assert(t == ta || t == tb);
    }
    assert(search_model(m, q).contains(d1));
    assert(search_model(m, q).contains(d2));
    assert(search_model(m, q) =~= set![d1, d2]);
}

/// A query with exactly one token matches exactly that token's posting
/// list — the whole list, and nothing else.
pub proof fn lemma_search_single_token(m: IndexModel, q: Seq<char>, t: Seq<char>)
    requires
        token_set_of(q) == set![t],
    ensures
        m.postings.contains_key(t) ==> search_model(m, q) == m.postings[t],
        !m.postings.contains_key(t) ==> search_model(m, q) == Set::<u128>::empty(),
{
    assert(token_set_of(q).contains(t));
    assert forall|id: u128| #[trigger] search_model(m, q).contains(id) implies (
    m.postings.contains_key(t) && m.postings[t].contains(id)) by {
        let t2 = choose|t2: Seq<char>|
            #![auto]
            token_set_of(q).contains(t2) && m.postings.contains_key(t2) && m.postings[t2].contains(
                id,
            );
        assert(t2 == t);
    }
    if m.postings.contains_key(t) {
        assert forall|id: u128| #[trigger] m.postings[t].contains(id) implies search_model(
            m,
            q,
        ).contains(id) by {}
        assert(search_model(m, q) =~= m.postings[t]);
    } else {
        assert(search_model(m, q) =~= Set::<u128>::empty());
    }
}

/// Empty query: a query without a single token character matches nothing.
pub proof fn lemma_search_empty_query(m: IndexModel)
    ensures
        search_model(m, Seq::empty()) == Set::<u128>::empty(),
{
    assert(tokens_of(Seq::empty()) =~= Seq::<Seq<char>>::empty());
    assert forall|id: u128| !(#[trigger] search_model(m, Seq::empty()).contains(id)) by {
        if search_model(m, Seq::empty()).contains(id) {
            let t = choose|t: Seq<char>|
                #![auto]
                token_set_of(Seq::empty()).contains(t) && m.postings.contains_key(t)
                    && m.postings[t].contains(id);
            assert(tokens_of(Seq::empty()).contains(t));
        }
    }
    assert(search_model(m, Seq::empty()) =~= Set::<u128>::empty());
}

} // verus!
