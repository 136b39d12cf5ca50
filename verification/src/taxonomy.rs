//! The category extractor.  A taxonomy document maps icon names to a
//! list of category labels under a "sets" field; from it the generator
//! takes a name-to-categories mapping and the deduplicated, sorted set of
//! every label, with the "uncategorized" fallback always present.

use vstd::prelude::*;
use crate::strings::{
    insert_unique, insert_unique_spec, lemma_insert_unique_spec_sorted, strictly_sorted_lex,
};

verus! {

/// One parsed taxonomy entry: the icon's name and, if the entry carries a
/// "sets" array, its elements, string elements kept as such and any other
/// element marked absent.
pub type RawEntry = (String, Option<Vec<Option<String>>>);

/// What serde_json finds in the document `doc`: `None` when the text does
/// not parse or its top level is not an object; otherwise one entry per
/// key, in the parser's (sorted) key order, where an entry's second half
/// names the elements of its `key` array, if any.
pub uninterp spec fn taxonomy_of(doc: Seq<char>, key: Seq<char>) -> Option<
    Seq<(Seq<char>, Option<Seq<Option<Seq<char>>>>)>,
>;

/// Relies on serde_json: `from_str` parses the document, `Value::Object`
/// distinguishes the top level, `Value::get`, `Value::as_array` and
/// `Value::as_str` read each entry's `key` array.  All output is a pure
/// function of the document text, since the parser's map keeps its keys
/// sorted.
#[verifier::external_body]
fn parse_taxonomy_raw(doc: &str, key: &str) -> (r: Option<Vec<RawEntry>>)
    ensures
        r.deep_view() == taxonomy_of(doc@, key@),
{
    let parsed: serde_json::Value = match serde_json::from_str(doc) {
        Ok(v) => v,
        Err(_) => return None,
    };
    let map = match parsed {
        serde_json::Value::Object(m) => m,
        _ => return None,
    };
    let entry = |(name, data): (String, serde_json::Value)| {
        let arr = data.get(key).and_then(serde_json::Value::as_array);
        (name, arr.map(|a| a.iter().map(|e| e.as_str().map(|s| s.to_string())).collect()))
    };
    Some(map.into_iter().map(entry).collect())
}

/// The string elements of a "sets" array, the non-strings dropped.
pub open spec fn clean_sets(sets: Seq<Option<Seq<char>>>) -> Seq<Seq<char>>
    decreases sets.len(),
{
    if sets.len() == 0 {
        Seq::empty()
    } else {
        clean_sets(sets.drop_last()) + match sets.last() {
            Some(s) => seq![s],
            None => Seq::empty(),
        }
    }
}

/// The name-to-categories mapping: one row per entry that carries a
/// "sets" array, in document order.
pub open spec fn mapping_of(entries: Seq<(Seq<char>, Option<Seq<Option<Seq<char>>>>)>) -> Seq<
    (Seq<char>, Seq<Seq<char>>),
>
    decreases entries.len(),
{
    if entries.len() == 0 {
        Seq::empty()
    } else {
        mapping_of(entries.drop_last()) + match entries.last().1 {
            Some(sets) => seq![(entries.last().0, clean_sets(sets))],
            None => Seq::empty(),
        }
    }
}

/// Every element of `xs` placed into the sorted set `acc`, left to right.
pub open spec fn insert_all(acc: Seq<Seq<char>>, xs: Seq<Seq<char>>) -> Seq<Seq<char>>
    decreases xs.len(),
{
    if xs.len() == 0 {
        acc
    } else {
        insert_all(insert_unique_spec(xs[0], acc), xs.drop_first())
    }
}

/// Adding one element at the right end of `xs` inserts it last.
pub proof fn lemma_insert_all_push(acc: Seq<Seq<char>>, xs: Seq<Seq<char>>, x: Seq<char>)
    ensures
        insert_all(acc, xs.push(x)) == insert_unique_spec(x, insert_all(acc, xs)),
    decreases xs.len(),
{
    if xs.len() == 0 {
        assert(xs.push(x)[0] == x);
        assert(xs.push(x).drop_first() =~= Seq::<Seq<char>>::empty());
        assert(insert_all(acc, xs.push(x)) == insert_all(
            insert_unique_spec(x, acc),
            xs.push(x).drop_first(),
        ));
        assert(insert_all(insert_unique_spec(x, acc), Seq::<Seq<char>>::empty())
            == insert_unique_spec(x, acc));
    } else {
        assert(xs.push(x)[0] == xs[0]);
        assert(xs.push(x).drop_first() =~= xs.drop_first().push(x));
        assert(insert_all(acc, xs.push(x)) == insert_all(
            insert_unique_spec(xs[0], acc),
            xs.drop_first().push(x),
        ));
        lemma_insert_all_push(insert_unique_spec(xs[0], acc), xs.drop_first(), x);
    }
}

/// The set of every label referenced by any entry, in document order of
/// first appearance folded into a sorted set.
pub open spec fn labels_of(entries: Seq<(Seq<char>, Option<Seq<Option<Seq<char>>>>)>) -> Seq<
    Seq<char>,
>
    decreases entries.len(),
{
    if entries.len() == 0 {
        Seq::empty()
    } else {
        insert_all(
            labels_of(entries.drop_last()),
            match entries.last().1 {
                Some(sets) => clean_sets(sets),
                None => Seq::empty(),
            },
        )
    }
}

/// The full category set: every referenced label plus the fallback.
pub open spec fn category_set_spec(
    entries: Seq<(Seq<char>, Option<Seq<Option<Seq<char>>>>)>,
) -> Seq<Seq<char>> {
    insert_unique_spec("uncategorized"@, labels_of(entries))
}

/// The mapping rows as plain values.
pub open spec fn mapping_view(m: Seq<(String, Vec<String>)>) -> Seq<(Seq<char>, Seq<Seq<char>>)> {
    m.map(|i: int, e: (String, Vec<String>)| (e.0@, e.1.deep_view()))
}

/// The name-to-categories mapping and the sorted category set of a
/// taxonomy document.  A document that does not parse as a single object
/// is rejected whole: feature gating must not be generated from a partial
/// reading.
pub fn extract_categories(input: &str) -> (r: Option<(Vec<(String, Vec<String>)>, Vec<String>)>)
    ensures
        match r {
            None => taxonomy_of(input@, "sets"@) is None,
            Some(out) => {
                &&& taxonomy_of(input@, "sets"@) is Some
                &&& mapping_view(out.0@) == mapping_of(taxonomy_of(input@, "sets"@)->Some_0)
                &&& out.1.deep_view() == category_set_spec(taxonomy_of(input@, "sets"@)->Some_0)
                &&& strictly_sorted_lex(out.1.deep_view())
            },
        },
{
    let entries = match parse_taxonomy_raw(input, "sets") {
        Some(v) => v,
        None => {
            return None;
        },
    };
    let ghost ev = entries.deep_view();
    assert(taxonomy_of(input@, "sets"@) == Some(ev));

    let mut mapping: Vec<(String, Vec<String>)> = Vec::new();
    let mut cats: Vec<String> = Vec::new();
    let mut i: usize = 0;
    proof {
        assert(ev.subrange(0, 0) =~= Seq::empty());
    }
    while i < entries.len()
        invariant
            0 <= i <= entries@.len(),
            ev == entries.deep_view(),
            ev.len() == entries@.len(),
            mapping_view(mapping@) == mapping_of(ev.subrange(0, i as int)),
            cats.deep_view() == labels_of(ev.subrange(0, i as int)),
            strictly_sorted_lex(cats.deep_view()),
        decreases entries@.len() - i,
    {
        let ghost pre = ev.subrange(0, i as int);
        let ghost post = ev.subrange(0, i + 1 as int);
        proof {
            assert(post.drop_last() =~= pre);
            assert(post.last() == ev[i as int]);
            assert(ev[i as int] == entries@[i as int].deep_view());
        }
        let name = entries[i].0.clone();
        match &entries[i].1 {
            Some(sets) => {
                let ghost setsv = entries@[i as int].1->Some_0.deep_view();
                assert(ev[i as int].1 == Some(setsv));
                let mut list: Vec<String> = Vec::new();
                let mut j: usize = 0;
                proof {
                    assert(setsv.subrange(0, 0) =~= Seq::empty());
                }
                while j < sets.len()
                    invariant
                        0 <= j <= sets@.len(),
                        setsv == sets.deep_view(),
                        setsv.len() == sets@.len(),
                        list.deep_view() == clean_sets(setsv.subrange(0, j as int)),
                        cats.deep_view() == insert_all(
                            labels_of(ev.subrange(0, i as int)),
                            clean_sets(setsv.subrange(0, j as int)),
                        ),
                        strictly_sorted_lex(cats.deep_view()),
                        i < ev.len(),
                        ev == entries.deep_view(),
                    decreases sets@.len() - j,
                {
                    let ghost spre = setsv.subrange(0, j as int);
                    let ghost spost = setsv.subrange(0, j + 1 as int);
                    proof {
                        assert(spost.drop_last() =~= spre);
                        assert(spost.last() == setsv[j as int]);
                        assert(setsv[j as int] == sets@[j as int].deep_view());
                    }
                    match &sets[j] {
                        Some(s) => {
                            let sc = s.clone();
                            proof {
                                assert(setsv[j as int] == Some(sc@));
                                assert(clean_sets(spost) =~= clean_sets(spre).push(sc@));
                                lemma_insert_all_push(
                                    labels_of(ev.subrange(0, i as int)),
                                    clean_sets(spre),
                                    sc@,
                                );
                                lemma_insert_unique_spec_sorted(sc@, cats.deep_view());
                            }
                            list.push(s.clone());
                            assert(list.deep_view() =~= clean_sets(spost));
                            cats = insert_unique(cats, sc);
                        },
                        None => {
                            assert(setsv[j as int] is None);
                            assert(clean_sets(spost) =~= clean_sets(spre));
                        },
                    }
                    j += 1;
                }
                proof {
                    assert(setsv.subrange(0, setsv.len() as int) =~= setsv);
                }
                mapping.push((name, list));
                assert(mapping_view(mapping@) =~= mapping_of(post));
                assert(labels_of(post) == insert_all(labels_of(pre), clean_sets(setsv)));
            },
            None => {
                proof {
                    assert(ev[i as int].1 is None);
                    assert(mapping_of(post) =~= mapping_of(pre));
                    assert(labels_of(post) == insert_all(labels_of(pre), Seq::empty()));
                }
            },
        }
        i += 1;
    }
    proof {
        assert(ev.subrange(0, ev.len() as int) =~= ev);
    }
    let fallback = String::from_str("uncategorized");
    proof {
        lemma_insert_unique_spec_sorted(fallback@, cats.deep_view());
    }
    let cats = insert_unique(cats, fallback);
    Some((mapping, cats))
}

/// The categories of one icon: the first mapping row carrying its name,
/// when that row's list is not empty; otherwise the single fallback label.
pub open spec fn categories_for_spec(
    m: Seq<(Seq<char>, Seq<Seq<char>>)>,
    name: Seq<char>,
) -> Seq<Seq<char>>
    decreases m.len(),
{
    if m.len() == 0 {
        seq!["uncategorized"@]
    } else if m[0].0 == name && m[0].1.len() > 0 {
        m[0].1
    } else if m[0].0 == name {
        seq!["uncategorized"@]
    } else {
        categories_for_spec(m.drop_first(), name)
    }
}

/// The categories an icon is filed under.
pub fn categories_for(m: &Vec<(String, Vec<String>)>, name: &String) -> (r: Vec<String>)
    ensures
        r.deep_view() == categories_for_spec(mapping_view(m@), name@),
        r.deep_view().len() > 0,
{
    let ghost mv = mapping_view(m@);
    let mut i: usize = 0;
    proof {
        assert(mv.subrange(0, mv.len() as int) =~= mv);
    }
    while i < m.len()
        invariant
            0 <= i <= m@.len(),
            mv == mapping_view(m@),
            mv.len() == m@.len(),
            categories_for_spec(mv, name@) == categories_for_spec(
                mv.subrange(i as int, mv.len() as int),
                name@,
            ),
        decreases m@.len() - i,
    {
        let ghost rest = mv.subrange(i as int, mv.len() as int);
        proof {
            assert(rest[0] == mv[i as int]);
            assert(mv[i as int] == (m@[i as int].0@, m@[i as int].1.deep_view()));
            assert(rest.drop_first() =~= mv.subrange(i + 1 as int, mv.len() as int));
        }
        if m[i].0.eq(name) {
            if m[i].1.len() > 0 {
                let mut out: Vec<String> = Vec::new();
                let row = &m[i].1;
                let mut j: usize = 0;
                proof {
                    assert(out.deep_view() =~= row.deep_view().subrange(0, 0));
                }
                while j < row.len()
                    invariant
                        0 <= j <= row@.len(),
                        out.deep_view() == row.deep_view().subrange(0, j as int),
                    decreases row@.len() - j,
                {
                    proof {
                        assert(row.deep_view().subrange(0, j as int).len() == j);
                        assert(out.deep_view().len() == j);
                        assert(out@.len() == j);
                    }
                    let c = row[j].clone();
                    proof {
                        assert(c == row@[j as int]);
                        assert(row.deep_view()[j as int] == row@[j as int]@);
                    }
                    let ghost prev = out.deep_view();
                    out.push(c);
                    proof {
                        assert(out.deep_view().len() == j + 1);
                        assert forall|k: int| 0 <= k < j + 1 implies out.deep_view()[k]
                            == row.deep_view().subrange(0, j + 1 as int)[k] by {
                            assert(out.deep_view()[k] == out@[k]@);
                            if k < j {
                                assert(prev[k] == row.deep_view().subrange(0, j as int)[k]);
                                assert(out.deep_view()[k] == prev[k]);
                            } else {
                                assert(out@[k] == c);
                            }
                        }
                        assert(out.deep_view() =~= row.deep_view().subrange(0, j + 1 as int));
                    }
                    j += 1;
                }
                assert(row.deep_view().subrange(0, row.deep_view().len() as int) =~= row.deep_view());
                assert(out.deep_view() =~= categories_for_spec(rest, name@));
                return out;
            } else {
                let mut out: Vec<String> = Vec::new();
                out.push(String::from_str("uncategorized"));
                assert(out.deep_view() =~= categories_for_spec(rest, name@));
                return out;
            }
        }
        assert(mv[i as int].0 != name@);
        i += 1;
    }
    proof {
        assert(mv.subrange(mv.len() as int, mv.len() as int) =~= Seq::empty());
    }
    let mut out: Vec<String> = Vec::new();
    out.push(String::from_str("uncategorized"));
    assert(out.deep_view() =~= categories_for_spec(
        mv.subrange(mv.len() as int, mv.len() as int),
        name@,
    ));
    out
}

} // verus!
