//! The design parameters of an element, as the context of its expressions.
use vstd::prelude::*;
use vstd::hash_map::StringHashMap;
use crate::text::{decimal, words, split_words, prefixed_decimal, lemma_prefixed_decimal_injective};

verus! {

/// The entries for the words `ws`: `DESP<k>` holds the k-th word, for k from 1.
pub open spec fn design_params(ws: Seq<Seq<char>>) -> Map<Seq<char>, Seq<char>>
    decreases ws.len(),
{
    if ws.len() == 0 {
        Map::empty()
    } else {
        design_params(ws.drop_last()).insert("DESP"@ + decimal(ws.len()), ws.last())
    }
}

/// Builds the design parameter context of a text (words separated by spaces or line
/// feeds): `DESP<k>` is the k-th word.
pub fn parse_design_param_to_hashmap(text: &str) -> (m: StringHashMap<String>)
    ensures
        m@.map_values(|v: String| v@) == design_params(words(text@)),
{
    let ws = split_words(text);
    let ghost all = words(text@);
    let mut params: StringHashMap<String> = StringHashMap::new();
    let mut k: usize = 0;
    assert(all.take(0) =~= Seq::<Seq<char>>::empty());
    assert(params@.map_values(|v: String| v@) =~= Map::<Seq<char>, Seq<char>>::empty());
    while k < ws.len()
        invariant
            ws@.map_values(|w: String| w@) == all,
            all == words(text@),
            k <= ws@.len(),
            params@.map_values(|v: String| v@) == design_params(all.take(k as int)),
        decreases ws@.len() - k,
    {
        let idx = k + 1;
        let ghost before = params@;
        let word = ws[k].clone();
        assert(word@ == all[k as int]);
        let dk = prefixed_decimal("DESP", idx);
        let ghost (dkv, wv) = (dk@, word@);
        params.insert(dk, word);
        proof {
            let t = all.take(idx as int);
            assert(t.drop_last() =~= all.take(k as int));
            assert(t.last() == all[k as int]);
            assert(params@.map_values(|v: String| v@) =~= before.map_values(|v: String| v@).insert(
                dkv,
                wv,
            ));
        }
        k = idx;
    }
    assert(all.take(ws@.len() as int) =~= all);
    params
}

/// The law of the design parameter context: for n words, `DESP<k>` is the k-th word
/// for k from 1 to n, and there is nothing else (n entries).
pub proof fn lemma_design_params(ws: Seq<Seq<char>>)
    ensures
        design_params(ws).dom().finite(),
        design_params(ws).len() == ws.len(),
        forall|key: Seq<char>|
            #[trigger] design_params(ws).contains_key(key) ==> exists|k: nat|
                1 <= k <= ws.len() && key == "DESP"@ + #[trigger] decimal(k),
        forall|k: nat|
            1 <= k <= ws.len() ==> #[trigger] design_params(ws).contains_key("DESP"@ + decimal(k))
                && design_params(ws)["DESP"@ + decimal(k)] == ws[k - 1],
    decreases ws.len(),
{
    if ws.len() > 0 {
        let n = ws.len();
        let prev = ws.drop_last();
        lemma_design_params(prev);
        let dk = "DESP"@ + decimal(n);
        if design_params(prev).contains_key(dk) {
            let k = choose|k: nat| 1 <= k <= prev.len() && dk == "DESP"@ + #[trigger] decimal(k);
            lemma_prefixed_decimal_injective("DESP"@, n, k);
        }
        assert forall|key: Seq<char>| #[trigger] design_params(ws).contains_key(key) implies exists|k: nat|
            1 <= k <= ws.len() && key == "DESP"@ + #[trigger] decimal(k) by {
            if key == dk {
                assert(1 <= n <= ws.len() && key == "DESP"@ + decimal(n));
            } else {
                assert(design_params(prev).contains_key(key));
            }
        }
        assert forall|k: nat| 1 <= k <= ws.len() implies #[trigger] design_params(ws).contains_key(
            "DESP"@ + decimal(k),
        ) && design_params(ws)["DESP"@ + decimal(k)] == ws[k - 1] by {
            if k < n && "DESP"@ + decimal(k) == dk {
                lemma_prefixed_decimal_injective("DESP"@, n, k);
            }
            if k < n {
                assert(prev[k - 1] == ws[k - 1]);
            }
        }
    }
}

} // verus!
