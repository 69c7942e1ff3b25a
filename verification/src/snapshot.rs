//! The snapshot: the index's four maps as plain vectors, fit for a
//! structured-text codec, and the checked restore path back. A snapshot
//! round-trips verbatim — in particular the stored token sets are
//! adopted as stored, after checking that they still agree with the
//! stored contents — and anything inconsistent is rejected whole, so a
//! corrupt snapshot yields no index (the caller then starts empty).

use crate::document::DocView;
use crate::document::Document;
use crate::idmap::id_distinct_keys;
use crate::idmap::id_map_of;
use crate::idmap::IdMap;
use crate::index::wf_model;
use crate::index::Index;
use crate::index::IndexModel;
use crate::postings::postings_model_of;
use crate::postings::PostingsMap;
use crate::strmap::str_distinct_keys;
use crate::strmap::str_map_of;
use crate::strmap::StrMap;
use crate::tokenizer::token_views;
use crate::tokenset::TokenSet;
use vstd::prelude::*;

verus! {

/// The index's four maps, flattened to plain vectors.
pub struct Snapshot {
    /// Token, and the ids of the documents carrying it.
    pub postings: Vec<(String, Vec<u128>)>,
    /// The documents themselves; each carries its own id.
    pub documents: Vec<Document>,
    /// Path, and the id of the live document at that path.
    pub path_to_id: Vec<(String, u128)>,
    /// Document id, and the document's distinct tokens as stored.
    pub doc_tokens: Vec<(u128, Vec<String>)>,
}

/// The documents map described by a vector of documents; later wins.
pub open spec fn documents_model_of(ds: Seq<Document>) -> Map<u128, DocView>
    decreases ds.len(),
{
    if ds.len() == 0 {
        Map::empty()
    } else {
        documents_model_of(ds.drop_last()).insert(ds.last().id, ds.last()@)
    }
}

/// The token-set map described by plain id/token-list entries.
pub open spec fn doc_tokens_model_of(s: Seq<(u128, Vec<String>)>) -> Map<u128, Set<Seq<char>>>
    decreases s.len(),
{
    if s.len() == 0 {
        Map::empty()
    } else {
        doc_tokens_model_of(s.drop_last()).insert(
            s.last().0,
            token_views(s.last().1@).to_set(),
        )
    }
}

/// No document id occurs twice.
pub open spec fn docs_distinct(ds: Seq<Document>) -> bool {
    forall|i: int, j: int| 0 <= i < j < ds.len() ==> ds[i].id != ds[j].id
}

/// The index model a snapshot describes.
pub open spec fn snapshot_model(s: Snapshot) -> IndexModel {
    IndexModel {
        postings: postings_model_of(s.postings@),
        documents: documents_model_of(s.documents@),
        path_to_id: str_map_of(s.path_to_id@),
        doc_tokens: doc_tokens_model_of(s.doc_tokens@),
    }
}

/// When a snapshot is acceptable: each map's keys are distinct, each
/// posting list holds at least one id and none twice, and the four maps
/// it describes satisfy every index invariant.
pub open spec fn snapshot_ok(s: Snapshot) -> bool {
    &&& str_distinct_keys(s.postings@)
    &&& forall|i: int|
        0 <= i < s.postings@.len() ==> (#[trigger] s.postings@[i].1)@.no_duplicates()
            && s.postings@[i].1@.len() > 0
    &&& docs_distinct(s.documents@)
    &&& str_distinct_keys(s.path_to_id@)
    &&& id_distinct_keys(s.doc_tokens@)
    &&& wf_model(snapshot_model(s))
}

/// Entry-wise matching vectors describe the same documents map.
pub proof fn lemma_converted_documents(pairs: Seq<(u128, Document)>, docs: Seq<Document>)
    requires
        pairs.len() == docs.len(),
        forall|k: int|
            0 <= k < pairs.len() ==> (#[trigger] pairs[k]).0 == docs[k].id && pairs[k].1@
                == docs[k]@,
    ensures
        id_map_of(pairs) == documents_model_of(docs),
    decreases pairs.len(),
{
    if pairs.len() > 0 {
        assert forall|k: int| 0 <= k < pairs.len() - 1 implies (#[trigger] pairs.drop_last()[k]).0
            == docs.drop_last()[k].id && pairs.drop_last()[k].1@ == docs.drop_last()[k]@ by {
            assert(pairs.drop_last()[k] == pairs[k]);
            assert(docs.drop_last()[k] == docs[k]);
        }
        lemma_converted_documents(pairs.drop_last(), docs.drop_last());
        assert(pairs.last() == pairs[pairs.len() - 1]);
        assert(docs.last() == docs[docs.len() - 1]);
    }
}

/// Entry-wise matching vectors describe the same token-set map.
pub proof fn lemma_converted_doc_tokens(
    conv: Seq<(u128, TokenSet)>,
    orig: Seq<(u128, Vec<String>)>,
)
    requires
        conv.len() == orig.len(),
        forall|k: int|
            0 <= k < conv.len() ==> (#[trigger] conv[k]).0 == orig[k].0 && conv[k].1@
                == token_views(orig[k].1@).to_set(),
    ensures
        id_map_of(conv) == doc_tokens_model_of(orig),
    decreases conv.len(),
{
    if conv.len() > 0 {
        assert forall|k: int| 0 <= k < conv.len() - 1 implies (#[trigger] conv.drop_last()[k]).0
            == orig.drop_last()[k].0 && conv.drop_last()[k].1@ == token_views(
            orig.drop_last()[k].1@,
        ).to_set() by {
            assert(conv.drop_last()[k] == conv[k]);
            assert(orig.drop_last()[k] == orig[k]);
        }
        lemma_converted_doc_tokens(conv.drop_last(), orig.drop_last());
        assert(conv.last() == conv[conv.len() - 1]);
        assert(orig.last() == orig[orig.len() - 1]);
    }
}

/// Rebuilds an index from a snapshot. The snapshot is adopted verbatim
/// when it is acceptable (`snapshot_ok`); anything inconsistent — a
/// duplicate key, an empty or duplicated posting list, maps that
/// contradict one another or token sets that do not match their
/// document's content — yields `None`.
pub fn restore(s: Snapshot) -> (r: Option<Index>)
    ensures
        r is Some <==> snapshot_ok(s),
        match r {
            Some(ix) => ix.wf() && ix@ == snapshot_model(s),
            None => true,
        },
{
    let Snapshot { postings, documents, path_to_id, doc_tokens } = s;
    let pm = match PostingsMap::from_entries(postings) {
        Some(p) => p,
        None => {
            return None;
        },
    };
    let ghost docs_orig = documents@;
    let mut docs_left = documents;
    let mut pairs: Vec<(u128, Document)> = Vec::new();
    proof {
        assert(docs_left@ =~= docs_orig.skip(0));
    }
    while docs_left.len() > 0
        invariant
            pairs@.len() + docs_left@.len() == docs_orig.len(),
            docs_left@ == docs_orig.skip(pairs@.len() as int),
            forall|k: int|
                0 <= k < pairs@.len() ==> (#[trigger] pairs@[k]).0 == docs_orig[k].id
                    && pairs@[k].1 == docs_orig[k],
        decreases docs_left@.len(),
    {
        let ghost n = pairs@.len() as int;
        proof {
            assert(docs_left@[0] == docs_orig[n]);
        }
        let d = docs_left.remove(0);
        let key = d.id;
        pairs.push((key, d));
        proof {
            assert(docs_orig.skip(n).remove(0) =~= docs_orig.skip(n + 1));
        }
    }
    proof {
        assert(pairs@.len() == docs_orig.len());
        assert(id_distinct_keys(pairs@) <==> docs_distinct(docs_orig)) by {
            assert forall|i: int, j: int|
                0 <= i < j < pairs@.len() implies (pairs@[i].0 == docs_orig[i].id && pairs@[j].0
                == docs_orig[j].id) by {}
        }
    }
    let ghost gpairs = pairs@;
    let dm = match IdMap::<Document>::from_entries(pairs) {
        Some(m) => m,
        None => {
            return None;
        },
    };
    let ptm = match StrMap::<u128>::from_entries(path_to_id) {
        Some(m) => m,
        None => {
            return None;
        },
    };
    let ghost toks_orig = doc_tokens@;
    let mut toks_left = doc_tokens;
    let mut conv: Vec<(u128, TokenSet)> = Vec::new();
    proof {
        assert(toks_left@ =~= toks_orig.skip(0));
    }
    while toks_left.len() > 0
        invariant
            conv@.len() + toks_left@.len() == toks_orig.len(),
            toks_left@ == toks_orig.skip(conv@.len() as int),
            forall|k: int|
                0 <= k < conv@.len() ==> (#[trigger] conv@[k]).0 == toks_orig[k].0 && conv@[k].1@
                    == token_views(toks_orig[k].1@).to_set(),
        decreases toks_left@.len(),
    {
        let ghost n = conv@.len() as int;
        proof {
            assert(toks_left@[0] == toks_orig[n]);
        }
        let e = toks_left.remove(0);
        let ts = TokenSet::from_tokens(&e.1);
        conv.push((e.0, ts));
        proof {
            assert(toks_orig.skip(n).remove(0) =~= toks_orig.skip(n + 1));
        }
    }
    proof {
        assert(conv@.len() == toks_orig.len());
        assert(id_distinct_keys(conv@) <==> id_distinct_keys(toks_orig)) by {
            assert forall|i: int, j: int|
                0 <= i < j < conv@.len() implies (conv@[i].0 == toks_orig[i].0 && conv@[j].0
                == toks_orig[j].0) by {}
        }
    }
    let ghost gconv = conv@;
    let dtm = match IdMap::<TokenSet>::from_entries(conv) {
        Some(m) => m,
        None => {
            return None;
        },
    };
    proof {
        lemma_converted_documents(gpairs, docs_orig);
        lemma_converted_doc_tokens(gconv, toks_orig);
        assert(dm@ == documents_model_of(docs_orig));
        assert(dtm@ == doc_tokens_model_of(toks_orig));
    }
    match Index::from_parts(pm, dm, ptm, dtm) {
        Some(ix) => Some(ix),
        None => None,
    }
}

} // verus!
