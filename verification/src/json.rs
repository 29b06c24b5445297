use vstd::prelude::*;

verus! {

use vstd::string::StringExecFns;

/// The JSON string literal (quotes and escapes included) denoting a text,
/// or nothing where the serializer fails; a pure function of the characters.
pub uninterp spec fn json_quoted_of(s: Seq<char>) -> Option<Seq<char>>;

/// Relies on serde_json::to_string for `str`: it writes the JSON string
/// literal denoting exactly the given text, depending on nothing but the
/// characters.
#[verifier::external_body]
pub fn json_quote(s: &str) -> (r: Option<String>)
    ensures
        r matches Some(q) ==> json_quoted_of(s@) == Some(q@),
        r is None ==> json_quoted_of(s@) is None,
{
    serde_json::to_string(s).ok()
}

/// Comma-joined concatenation of already-rendered JSON values.
pub open spec fn spec_join_comma(elems: Seq<Seq<char>>) -> Seq<char>
    decreases elems.len(),
{
    if elems.len() == 0 {
        Seq::empty()
    } else if elems.len() == 1 {
        elems[0]
    } else {
        spec_join_comma(elems.drop_last()) + seq![','] + elems.last()
    }
}

/// Whether every item has a JSON string rendering.
pub open spec fn all_quotable(items: Seq<Seq<char>>) -> bool {
    forall|i: int| 0 <= i < items.len() ==> (#[trigger] json_quoted_of(items[i])) is Some
}

/// The JSON renderings of the items, in order.
pub open spec fn quoted_items(items: Seq<Seq<char>>) -> Seq<Seq<char>> {
    Seq::new(items.len(), |i: int| json_quoted_of(items[i])->0)
}

/// The JSON array of the quoted items: `["a","b",...]`.
pub open spec fn spec_json_str_array(items: Seq<Seq<char>>) -> Seq<char> {
    seq!['['] + spec_join_comma(quoted_items(items)) + seq![']']
}

/// Render a JSON array of strings; `None` exactly when some item has no
/// JSON rendering.
pub fn json_array_of_strings(items: &Vec<String>) -> (r: Option<String>)
    ensures
        r is Some <==> all_quotable(items.deep_view()),
        r matches Some(q) ==> q@ == spec_json_str_array(items.deep_view()),
{
    let ghost itemsv = items.deep_view();
    let mut out = String::from_str("[");
    proof {
        reveal_strlit("[");
    }
    let mut i: usize = 0;
    while i < items.len()
        invariant
            itemsv == items.deep_view(),
            itemsv.len() == items@.len(),
            0 <= i <= items@.len(),
            all_quotable(itemsv.take(i as int)),
            out@ == seq!['['] + spec_join_comma(quoted_items(itemsv.take(i as int))),
        decreases items@.len() - i,
    {
        proof {
            assert(itemsv[i as int] =~= items@[i as int]@);
        }
        let q = json_quote(items[i].as_str());
        match q {
            Some(qs) => {
                if i > 0 {
                    out.append(",");
                    proof {
                        reveal_strlit(",");
                    }
                }
                out.append(qs.as_str());
                proof {
                    let prev = quoted_items(itemsv.take(i as int));
                    let now = quoted_items(itemsv.take(i as int + 1));
                    assert(now.drop_last() =~= prev);
                    assert(all_quotable(itemsv.take(i as int + 1)));
                    if i == 0 {
                        assert(spec_join_comma(now) =~= qs@);
                        assert(out@ =~= seq!['['] + spec_join_comma(now));
                    } else {
                        assert(spec_join_comma(now) == spec_join_comma(prev) + seq![',']
                            + now.last());
                        assert(out@ =~= seq!['['] + spec_join_comma(now));
                    }
                }
            },
            None => {
                proof {
                    assert(json_quoted_of(itemsv[i as int]) is None);
                    assert(!all_quotable(itemsv));
                }
                return None;
            },
        }
        i += 1;
    }
    out.append("]");
    proof {
        reveal_strlit("]");
        assert(itemsv.take(i as int) =~= itemsv);
        assert(out@ =~= spec_json_str_array(itemsv));
    }
    Some(out)
}

/// Whether both members of every pair have a JSON string rendering.
pub open spec fn all_pairs_quotable(pairs: Seq<(Seq<char>, Seq<char>)>) -> bool {
    forall|i: int|
        0 <= i < pairs.len() ==> (#[trigger] json_quoted_of(pairs[i].0)) is Some && json_quoted_of(
            pairs[i].1,
        ) is Some
}

/// One key/value pair rendered as a two-element JSON array: `["k","v"]`.
pub open spec fn spec_pair_elem(p: (Seq<char>, Seq<char>)) -> Seq<char> {
    seq!['['] + json_quoted_of(p.0)->0 + seq![','] + json_quoted_of(p.1)->0 + seq![']']
}

pub open spec fn pair_elems(pairs: Seq<(Seq<char>, Seq<char>)>) -> Seq<Seq<char>> {
    Seq::new(pairs.len(), |i: int| spec_pair_elem(pairs[i]))
}

/// The JSON array of key/value pairs: `[["k","v"],...]`.
pub open spec fn spec_json_pair_array(pairs: Seq<(Seq<char>, Seq<char>)>) -> Seq<char> {
    seq!['['] + spec_join_comma(pair_elems(pairs)) + seq![']']
}

/// Render a JSON array of two-element arrays; `None` exactly when some
/// member has no JSON rendering.
pub fn json_array_of_pairs(pairs: &Vec<(String, String)>) -> (r: Option<String>)
    ensures
        r is Some <==> all_pairs_quotable(pairs.deep_view()),
        r matches Some(q) ==> q@ == spec_json_pair_array(pairs.deep_view()),
{
    let ghost pairsv = pairs.deep_view();
    let mut out = String::from_str("[");
    proof {
        reveal_strlit("[");
    }
    let mut i: usize = 0;
    while i < pairs.len()
        invariant
            pairsv == pairs.deep_view(),
            pairsv.len() == pairs@.len(),
            0 <= i <= pairs@.len(),
            all_pairs_quotable(pairsv.take(i as int)),
            out@ == seq!['['] + spec_join_comma(pair_elems(pairsv.take(i as int))),
        decreases pairs@.len() - i,
    {
        proof {
            assert(pairsv[i as int].0 =~= pairs@[i as int].0@);
            assert(pairsv[i as int].1 =~= pairs@[i as int].1@);
        }
        let qk = json_quote(pairs[i].0.as_str());
        let qv = json_quote(pairs[i].1.as_str());
        match (qk, qv) {
            (Some(k), Some(v)) => {
                if i > 0 {
                    out.append(",");
                    proof {
                        reveal_strlit(",");
                    }
                }
                out.append("[");
                out.append(k.as_str());
                out.append(",");
                out.append(v.as_str());
                out.append("]");
                proof {
                    reveal_strlit("[");
                    reveal_strlit(",");
                    reveal_strlit("]");
                    let prev = pair_elems(pairsv.take(i as int));
                    let now = pair_elems(pairsv.take(i as int + 1));
                    assert(now.drop_last() =~= prev);
                    assert(all_pairs_quotable(pairsv.take(i as int + 1)));
                    assert(now.last() =~= seq!['['] + k@ + seq![','] + v@ + seq![']']);
                    if i == 0 {
                        assert(spec_join_comma(now) =~= now.last());
                        assert(out@ =~= seq!['['] + spec_join_comma(now));
                    } else {
                        assert(spec_join_comma(now) == spec_join_comma(prev) + seq![',']
                            + now.last());
                        assert(out@ =~= seq!['['] + spec_join_comma(now));
                    }
                }
            },
            _ => {
                proof {
                    assert(!all_pairs_quotable(pairsv));
                }
                return None;
            },
        }
        i += 1;
    }
    out.append("]");
    proof {
        reveal_strlit("]");
        assert(pairsv.take(i as int) =~= pairsv);
        assert(out@ =~= spec_json_pair_array(pairsv));
    }
    Some(out)
}

} // verus!
