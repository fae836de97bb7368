//! The parameter context of a catalogue component: the words of its parameter
//! text, numbered from 1, under the keys its expressions use.
use vstd::prelude::*;
use vstd::hash_map::StringHashMap;
use crate::text::{
    decimal, words, split_words, prefixed_decimal, lemma_decimal_nonempty,
    lemma_prefixed_decimal_injective,
};

verus! {

/// The entries for the words `ws`: for the k-th word (k from 1) `PARAM<k>` holds the
/// word and `IPARAM<k>` holds `0.0`.
pub open spec fn word_params(ws: Seq<Seq<char>>) -> Map<Seq<char>, Seq<char>>
    decreases ws.len(),
{
    if ws.len() == 0 {
        Map::empty()
    } else {
        let n = ws.len();
        word_params(ws.drop_last()).insert("PARAM"@ + decimal(n), ws.last()).insert(
            "IPARAM"@ + decimal(n),
            "0.0"@,
        )
    }
}

/// The parameter context of a text: the entries of its words, and `IPARAM` (the
/// insulation thickness, not read) set to `0.0`.
pub open spec fn param_map(text: Seq<char>) -> Map<Seq<char>, Seq<char>> {
    word_params(words(text)).insert("IPARAM"@, "0.0"@)
}

/// Builds the parameter context of a parameter text (words separated by spaces or
/// line feeds).
pub fn parse_param_to_hashmap(text: &str) -> (m: StringHashMap<String>)
    ensures
        m@.map_values(|v: String| v@) == param_map(text@),
{
    let ws = split_words(text);
    let ghost all = words(text@);
    let mut params: StringHashMap<String> = StringHashMap::new();
    let mut k: usize = 0;
    assert(all.take(0) =~= Seq::<Seq<char>>::empty());
    assert(params@.map_values(|v: String| v@) =~= Map::<Seq<char>, Seq<char>>::empty());
    while k < ws.len()
        invariant
            ws@.map_values(|w: String| w@) == all,
            all == words(text@),
            k <= ws@.len(),
            params@.map_values(|v: String| v@) == word_params(all.take(k as int)),
        decreases ws@.len() - k,
    {
        let idx = k + 1;
        let ghost before = params@;
        let word = ws[k].clone();
        assert(word@ == all[k as int]);
        let zero = String::from_str("0.0");
        let pk = prefixed_decimal("PARAM", idx);
        let ik = prefixed_decimal("IPARAM", idx);
        let ghost (pkv, ikv, wv, zv) = (pk@, ik@, word@, zero@);
        params.insert(pk, word);
        params.insert(ik, zero);
        proof {
            let t = all.take(idx as int);
            assert(t.drop_last() =~= all.take(k as int));
            assert(t.last() == all[k as int]);
            assert(t.len() == idx);
            assert(params@.map_values(|v: String| v@) =~= before.map_values(|v: String| v@).insert(
                pkv,
                wv,
            ).insert(ikv, zv));
        }
        k = idx;
    }
    assert(all.take(ws@.len() as int) =~= all);
    let ghost before = params@;
    let key = String::from_str("IPARAM");
    let zero = String::from_str("0.0");
    let ghost (kv, zv) = (key@, zero@);
    params.insert(key, zero);
    assert(params@.map_values(|v: String| v@) =~= before.map_values(|v: String| v@).insert(kv, zv));
    params
}

/// The keys of `word_params(ws)` are `PARAM<k>` and `IPARAM<k>` for k from 1 to the
/// number of words.
proof fn lemma_word_params_keys(ws: Seq<Seq<char>>, key: Seq<char>)
    requires
        word_params(ws).contains_key(key),
    ensures
        exists|k: nat|
            1 <= k <= ws.len() && (key == "PARAM"@ + #[trigger] decimal(k) || key == "IPARAM"@
                + decimal(k)),
    decreases ws.len(),
{
    let n = ws.len();
    if key != "PARAM"@ + decimal(n) && key != "IPARAM"@ + decimal(n) {
        lemma_word_params_keys(ws.drop_last(), key);
    } else {
        assert(1 <= n <= ws.len());
    }
}

proof fn lemma_param_keys_distinct(a: nat, b: nat)
    ensures
        "PARAM"@ + decimal(a) != "IPARAM"@ + decimal(b),
        "IPARAM"@ != "IPARAM"@ + decimal(b),
        "PARAM"@ + decimal(a) != "IPARAM"@,
{
    reveal_strlit("PARAM");
    reveal_strlit("IPARAM");
    lemma_decimal_nonempty(a);
    lemma_decimal_nonempty(b);
    assert(("PARAM"@ + decimal(a))[0] == 'P');
    assert(("IPARAM"@ + decimal(b))[0] == 'I');
    assert(("IPARAM"@ + decimal(b)).len() > 6);
}

/// What `word_params` holds: for each word number k, `PARAM<k>` is the k-th word and
/// `IPARAM<k>` is `0.0`; there are two entries per word.
pub proof fn lemma_word_params(ws: Seq<Seq<char>>)
    ensures
        word_params(ws).dom().finite(),
        word_params(ws).len() == 2 * ws.len(),
        forall|k: nat|
            1 <= k <= ws.len() ==> #[trigger] word_params(ws).contains_key("PARAM"@ + decimal(k))
                && word_params(ws)["PARAM"@ + decimal(k)] == ws[k - 1]
                && word_params(ws).contains_key("IPARAM"@ + decimal(k))
                && word_params(ws)["IPARAM"@ + decimal(k)] == "0.0"@,
    decreases ws.len(),
{
    if ws.len() > 0 {
        let n = ws.len();
        let prev = ws.drop_last();
        lemma_word_params(prev);
        let pk = "PARAM"@ + decimal(n);
        let ik = "IPARAM"@ + decimal(n);
        lemma_param_keys_distinct(n, n);
        if word_params(prev).contains_key(pk) {
            lemma_word_params_keys(prev, pk);
            let k = choose|k: nat|
                1 <= k <= prev.len() && (pk == "PARAM"@ + #[trigger] decimal(k) || pk == "IPARAM"@
                    + decimal(k));
            lemma_param_keys_distinct(n, k);
            lemma_prefixed_decimal_injective("PARAM"@, n, k);
        }
        if word_params(prev).contains_key(ik) {
            lemma_word_params_keys(prev, ik);
            let k = choose|k: nat|
                1 <= k <= prev.len() && (ik == "PARAM"@ + #[trigger] decimal(k) || ik == "IPARAM"@
                    + decimal(k));
            lemma_param_keys_distinct(k, n);
            lemma_prefixed_decimal_injective("IPARAM"@, n, k);
        }
        assert forall|k: nat| 1 <= k <= ws.len() implies #[trigger] word_params(ws).contains_key(
            "PARAM"@ + decimal(k),
        ) && word_params(ws)["PARAM"@ + decimal(k)] == ws[k - 1] && word_params(ws).contains_key(
            "IPARAM"@ + decimal(k),
        ) && word_params(ws)["IPARAM"@ + decimal(k)] == "0.0"@ by {
            lemma_param_keys_distinct(k, n);
            lemma_param_keys_distinct(n, k);
            if k < n {
                if "PARAM"@ + decimal(k) == pk {
                    lemma_prefixed_decimal_injective("PARAM"@, n, k);
                }
                if "IPARAM"@ + decimal(k) == ik {
                    lemma_prefixed_decimal_injective("IPARAM"@, n, k);
                }
                assert(prev[k - 1] == ws[k - 1]);
            }
        }
    }
}

/// The law of the parameter context: for a text of n words, the k-th word is under
/// `PARAM<k>`, `IPARAM<k>` and `IPARAM` are `0.0`, and there is nothing else
/// (2n + 1 entries).
pub proof fn lemma_param_map(text: Seq<char>)
    ensures
        param_map(text).len() == 2 * words(text).len() + 1,
        param_map(text).contains_key("IPARAM"@),
        param_map(text)["IPARAM"@] == "0.0"@,
        forall|k: nat|
            1 <= k <= words(text).len() ==> #[trigger] param_map(text).contains_key(
                "PARAM"@ + decimal(k),
            ) && param_map(text)["PARAM"@ + decimal(k)] == words(text)[k - 1]
                && param_map(text)["IPARAM"@ + decimal(k)] == "0.0"@,
{
    let ws = words(text);
    lemma_word_params(ws);
    if word_params(ws).contains_key("IPARAM"@) {
        lemma_word_params_keys(ws, "IPARAM"@);
        let k = choose|k: nat|
            1 <= k <= ws.len() && ("IPARAM"@ == "PARAM"@ + #[trigger] decimal(k) || "IPARAM"@
                == "IPARAM"@ + decimal(k));
        lemma_param_keys_distinct(k, k);
    }
    assert forall|k: nat| 1 <= k <= words(text).len() implies #[trigger] param_map(text).contains_key(
        "PARAM"@ + decimal(k),
    ) && param_map(text)["PARAM"@ + decimal(k)] == words(text)[k - 1]
        && param_map(text)["IPARAM"@ + decimal(k)] == "0.0"@ by {
        lemma_param_keys_distinct(k, k);
        assert(word_params(ws).contains_key("PARAM"@ + decimal(k)));
    }
}

} // verus!
