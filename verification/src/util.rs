//! The name resolver: exact-name matching over a candidate set, ranked
//! "did you mean" suggestions on a miss, and validation of the index a
//! user types during interactive disambiguation.

use vstd::prelude::*;

verus! {

/// The bit pattern of the Jaro-Winkler similarity of two character
/// sequences. The similarity is a double in [0, 1], and on non-negative
/// doubles the bit patterns are ordered exactly as the values, so ranking
/// and thresholding by this pattern is ranking and thresholding by the
/// similarity itself. Named here so that contracts can speak about it;
/// its value on given strings is fixed by the similarity function alone.
pub uninterp spec fn jw_similarity_bits(a: Seq<char>, b: Seq<char>) -> u64;

/// Relies on strsim::jaro_winkler: returns a similarity between 0.0 and
/// 1.0 that depends on the two strings alone. The bit pattern of that
/// non-negative double is handed out, preserving order and equality, so
/// that verified code can compare and rank similarities.
#[verifier::external_body]
fn jaro_winkler_similarity_bits(a: &str, b: &str) -> (r: u64)
    ensures
        r == jw_similarity_bits(a@, b@),
{
    strsim::jaro_winkler(a, b).to_bits()
}

/// A candidate name is suggested when its similarity to the query is at
/// least 0.80: this is the bit pattern of the double 0.80, so comparing
/// patterns compares similarities.
pub const SUGGESTION_THRESHOLD: u64 = 0x3FE9_9999_9999_999A;

/// At most this many suggestions are ever returned.
pub const MAX_SUGGESTIONS: usize = 5;

/// Whether a name is close enough to the query to be suggested.
pub open spec fn is_close(query: Seq<char>, name: Seq<char>) -> bool {
    jw_similarity_bits(query, name) >= SUGGESTION_THRESHOLD
}

/// The spec-level image of a keyed candidate: its key with the name's view.
pub open spec fn pair_view(p: (u64, String)) -> (u64, Seq<char>) {
    (p.0, p.1@)
}

/// Insert a keyed name into an already ranked sequence: it lands directly
/// after every entry whose key is at least as large, so equal keys keep
/// their original order (a stable descending insertion).
pub open spec fn insert_ranked(x: (u64, Seq<char>), s: Seq<(u64, Seq<char>)>) -> Seq<
    (u64, Seq<char>),
>
    decreases s.len(),
{
    if s.len() == 0 {
        seq![x]
    } else if s.first().0 >= x.0 {
        seq![s.first()] + insert_ranked(x, s.drop_first())
    } else {
        seq![x] + s
    }
}

/// Stable descending insertion sort by key: the ranking used for
/// suggestions, highest similarity first, ties kept in candidate order.
pub open spec fn ranked(s: Seq<(u64, Seq<char>)>) -> Seq<(u64, Seq<char>)>
    decreases s.len(),
{
    if s.len() == 0 {
        Seq::empty()
    } else {
        insert_ranked(s.last(), ranked(s.drop_last()))
    }
}

/// The close-enough candidates, each paired with its similarity key, in
/// candidate order.
pub open spec fn candidate_pairs(query: Seq<char>, names: Seq<Seq<char>>) -> Seq<
    (u64, Seq<char>),
>
    decreases names.len(),
{
    if names.len() == 0 {
        Seq::empty()
    } else {
        let rest = candidate_pairs(query, names.drop_last());
        if is_close(query, names.last()) {
            rest.push((jw_similarity_bits(query, names.last()), names.last()))
        } else {
            rest
        }
    }
}

/// The suggestion list for a query: the close-enough candidates ranked by
/// descending similarity (ties stable), cut off after [`MAX_SUGGESTIONS`].
pub open spec fn suggestions_for(query: Seq<char>, names: Seq<Seq<char>>) -> Seq<Seq<char>> {
    let sorted = ranked(candidate_pairs(query, names));
    let limited = if sorted.len() <= MAX_SUGGESTIONS {
        sorted
    } else {
        sorted.take(MAX_SUGGESTIONS as int)
    };
    limited.map_values(|p: (u64, Seq<char>)| p.1)
}

/// Inserting into a ranked sequence at the first position whose key is
/// smaller is exactly what [`insert_ranked`] denotes.
proof fn lemma_insert_ranked_at(x: (u64, Seq<char>), s: Seq<(u64, Seq<char>)>, j: int)
    requires
        0 <= j <= s.len(),
        forall|k: int| 0 <= k < j ==> s[k].0 >= x.0,
        j < s.len() ==> s[j].0 < x.0,
    ensures
        insert_ranked(x, s) == s.take(j) + seq![x] + s.skip(j),
    decreases j,
{
    if j == 0 {
        if s.len() == 0 {
            assert(insert_ranked(x, s) =~= s.take(0) + seq![x] + s.skip(0));
        } else {
            assert(s.first() == s[0]);
            assert(insert_ranked(x, s) == seq![x] + s);
            assert(seq![x] + s =~= s.take(0) + seq![x] + s.skip(0));
        }
    } else {
        let t = s.drop_first();
        assert(s.first() == s[0]);
        assert(s.first().0 >= x.0);
        assert forall|k: int| 0 <= k < j - 1 implies #[trigger] t[k].0 >= x.0 by {
            assert(t[k] == s[k + 1]);
        }
        assert(j - 1 < t.len() ==> t[j - 1].0 < x.0) by {
            if j - 1 < t.len() {
                assert(t[j - 1] == s[j]);
            }
        }
        lemma_insert_ranked_at(x, t, j - 1);
        assert(insert_ranked(x, s) == seq![s.first()] + (t.take(j - 1) + seq![x] + t.skip(j - 1)));
        assert(seq![s.first()] + (t.take(j - 1) + seq![x] + t.skip(j - 1)) =~= s.take(j) + seq![x]
            + s.skip(j));
    }
}

/// Return the closest matching candidate names for a query: every name
/// whose Jaro-Winkler similarity reaches 0.80, ranked by descending
/// similarity with ties kept in candidate order, at most five of them.
pub fn did_you_mean(v: &str, possible_values: &Vec<String>) -> (r: Vec<String>)
    ensures
        r@.map_values(|s: String| s@) == suggestions_for(
            v@,
            possible_values@.map_values(|s: String| s@),
        ),
        r@.len() <= MAX_SUGGESTIONS,
{
    let ghost all_names = possible_values@.map_values(|s: String| s@);

    // Collect the close-enough candidates, paired with their keys.
    let mut cands: Vec<(u64, String)> = Vec::new();
    let n = possible_values.len();
    let mut i: usize = 0;
    proof {
        assert(all_names.take(0) =~= Seq::<Seq<char>>::empty());
    }
    while i < n
        invariant
            n == possible_values@.len(),
            i <= n,
            all_names == possible_values@.map_values(|s: String| s@),
            cands@.map_values(|p: (u64, String)| pair_view(p)) == candidate_pairs(v@, all_names.take(i as int)),
        decreases n - i,
    {
        let name = &possible_values[i];
        let sim = jaro_winkler_similarity_bits(v, name.as_str());
        if sim >= SUGGESTION_THRESHOLD {
            cands.push((sim, name.clone()));
        }
        i += 1;
        proof {
            let taken = all_names.take(i as int);
            assert(taken.drop_last() =~= all_names.take(i - 1));
            assert(taken.last() == all_names[i - 1]);
            assert(all_names[i - 1] == name@);
            if sim >= SUGGESTION_THRESHOLD {
                assert(is_close(v@, name@));
                assert(candidate_pairs(v@, taken) == candidate_pairs(v@, all_names.take(i - 1)).push(
                    (sim, name@),
                ));
                assert(cands@.map_values(|p: (u64, String)| pair_view(p)) =~= candidate_pairs(
                    v@,
                    taken,
                ));
            } else {
                assert(!is_close(v@, name@));
                assert(candidate_pairs(v@, taken) == candidate_pairs(v@, all_names.take(i - 1)));
                assert(cands@.map_values(|p: (u64, String)| pair_view(p)) =~= candidate_pairs(
                    v@,
                    taken,
                ));
            }
        }
    }
    proof {
        assert(all_names.take(n as int) =~= all_names);
    }

    // Rank them: stable insertion sort, descending by key.
    let ghost all_pairs = cands@.map_values(|p: (u64, String)| pair_view(p));
    let mut sorted: Vec<(u64, String)> = Vec::new();
    let mut rest = cands;
    proof {
        assert(all_pairs.take(0) =~= Seq::<(u64, Seq<char>)>::empty());
    }
    while rest.len() > 0
        invariant
            rest@.len() <= all_pairs.len(),
            rest@.map_values(|p: (u64, String)| pair_view(p)) == all_pairs.skip(all_pairs.len() - rest@.len()),
            sorted@.map_values(|p: (u64, String)| pair_view(p)) == ranked(
                all_pairs.take(all_pairs.len() - rest@.len()),
            ),
        decreases rest@.len(),
    {
        let ghost k = all_pairs.len() - rest@.len();
        let ghost rest_before = rest@;
        let ghost sorted_before = sorted@.map_values(|p: (u64, String)| pair_view(p));
        let entry = rest.remove(0);
        proof {
            assert(rest_before.map_values(|p: (u64, String)| pair_view(p))[0] == all_pairs.skip(k as int)[0]);
            assert(pair_view(entry) == all_pairs[k as int]);
            assert(rest@ =~= rest_before.skip(1));
            assert forall|m: int| 0 <= m < rest@.len() implies rest@.map_values(|p: (u64, String)| pair_view(p))[m]
                == #[trigger] all_pairs.skip(k as int + 1)[m] by {
                assert(rest@[m] == rest_before[m + 1]);
                assert(rest_before.map_values(|p: (u64, String)| pair_view(p))[m + 1] == all_pairs.skip(k as int)[m
                    + 1]);
            }
            assert(rest@.map_values(|p: (u64, String)| pair_view(p)) =~= all_pairs.skip(k as int + 1));
        }
        let key = entry.0;
        let mut j: usize = 0;
        while j < sorted.len() && sorted[j].0 >= key
            invariant
                j <= sorted@.len(),
                forall|m: int| 0 <= m < j ==> (#[trigger] sorted@[m]).0 >= key,
            decreases sorted@.len() - j,
        {
            j += 1;
        }
        let ghost jj = j as int;
        proof {
            assert forall|m: int| 0 <= m < jj implies #[trigger] sorted_before[m].0
                >= all_pairs[k as int].0 by {
                assert(sorted_before[m] == pair_view(sorted@[m]));
            }
            if jj < sorted_before.len() {
                assert(sorted_before[jj] == pair_view(sorted@[jj]));
                assert(sorted_before[jj].0 < all_pairs[k as int].0);
            }
        }
        sorted.insert(j, entry);
        proof {
            lemma_insert_ranked_at(all_pairs[k as int], sorted_before, jj);
            assert(sorted@.map_values(|p: (u64, String)| pair_view(p)) =~= sorted_before.take(jj)
                + seq![all_pairs[k as int]] + sorted_before.skip(jj));
            let taken = all_pairs.take(k as int + 1);
            assert(taken.drop_last() =~= all_pairs.take(k as int));
            assert(taken.last() == all_pairs[k as int]);
            assert(sorted@.map_values(|p: (u64, String)| pair_view(p)) == ranked(taken));
        }
    }
    proof {
        assert(all_pairs.take(all_pairs.len() as int) =~= all_pairs);
    }

    // Keep at most the first MAX_SUGGESTIONS names.
    let limit = if sorted.len() <= MAX_SUGGESTIONS {
        sorted.len()
    } else {
        MAX_SUGGESTIONS
    };
    let mut out: Vec<String> = Vec::new();
    let mut i: usize = 0;
    while i < limit
        invariant
            limit <= sorted@.len(),
            i <= limit,
            sorted@.map_values(|p: (u64, String)| pair_view(p)) == ranked(all_pairs),
            limit == if sorted@.len() <= MAX_SUGGESTIONS {
                sorted@.len() as int
            } else {
                MAX_SUGGESTIONS as int
            },
            out@.len() == i,
            forall|m: int|
                0 <= m < i ==> out@.map_values(|s: String| s@)[m] == ranked(all_pairs)[m].1,
        decreases limit - i,
    {
        let entry = &sorted[i];
        out.push(entry.1.clone());
        proof {
            assert(sorted@.map_values(|p: (u64, String)| pair_view(p))[i as int] == pair_view(sorted@[i as int]));
        }
        i += 1;
    }
    proof {
        assert(out@.map_values(|s: String| s@) =~= suggestions_for(v@, all_names));
    }
    out
}

/// The positions of the names equal to the query, in ascending order.
pub open spec fn matching_name_indices(query: Seq<char>, names: Seq<Seq<char>>) -> Seq<int>
    decreases names.len(),
{
    if names.len() == 0 {
        Seq::empty()
    } else if names.last() == query {
        matching_name_indices(query, names.drop_last()).push(names.len() - 1)
    } else {
        matching_name_indices(query, names.drop_last())
    }
}

/// Every position reported by [`matching_name_indices`] lies inside the
/// candidate list and bears exactly the queried name there.
pub proof fn lemma_matching_name_indices_sound(query: Seq<char>, names: Seq<Seq<char>>, j: int)
    requires
        0 <= j < matching_name_indices(query, names).len(),
    ensures
        0 <= matching_name_indices(query, names)[j] < names.len(),
        names[matching_name_indices(query, names)[j]] == query,
    decreases names.len(),
{
    if names.len() > 0 {
        let sub = matching_name_indices(query, names.drop_last());
        if j < sub.len() {
            lemma_matching_name_indices_sound(query, names.drop_last(), j);
            assert(names.drop_last()[sub[j]] == names[sub[j]]);
        }
    }
}

/// How a query resolves against a candidate set: no exact name match
/// (with ranked suggestions), exactly one, or several that only an
/// explicit selection may decide between.
#[derive(Debug)]
pub enum Resolution {
    NoMatch { suggestions: Vec<String> },
    Unique { index: usize },
    Ambiguous { indices: Vec<usize> },
}

/// Spec-level image of a [`Resolution`].
pub ghost enum ResolutionView {
    NoMatch { suggestions: Seq<Seq<char>> },
    Unique { index: int },
    Ambiguous { indices: Seq<int> },
}

impl View for Resolution {
    type V = ResolutionView;

    open spec fn view(&self) -> ResolutionView {
        match self {
            Resolution::NoMatch { suggestions } => ResolutionView::NoMatch {
                suggestions: suggestions@.map_values(|s: String| s@),
            },
            Resolution::Unique { index } => ResolutionView::Unique { index: *index as int },
            Resolution::Ambiguous { indices } => ResolutionView::Ambiguous {
                indices: indices@.map_values(|u: usize| u as int),
            },
        }
    }
}

/// What resolving a query against a list of names denotes: the positions
/// bearing exactly the queried name decide between a miss (with
/// suggestions), a unique hit, and an ambiguity.
pub open spec fn resolution_of(query: Seq<char>, names: Seq<Seq<char>>) -> ResolutionView {
    let hits = matching_name_indices(query, names);
    if hits.len() == 0 {
        ResolutionView::NoMatch { suggestions: suggestions_for(query, names) }
    } else if hits.len() == 1 {
        ResolutionView::Unique { index: hits[0] }
    } else {
        ResolutionView::Ambiguous { indices: hits }
    }
}

/// Resolve a query against candidate names. Zero exact matches is a miss
/// carrying ranked suggestions; one match resolves silently; several
/// matches are reported as ambiguous and left to an explicit selection.
pub fn resolve(query: &str, names: &Vec<String>) -> (r: Resolution)
    ensures
        r@ == resolution_of(query@, names@.map_values(|s: String| s@)),
{
    let ghost all_names = names@.map_values(|s: String| s@);
    let query_owned: String = query.to_owned();
    let mut hits: Vec<usize> = Vec::new();
    let n = names.len();
    let mut i: usize = 0;
    proof {
        assert(all_names.take(0) =~= Seq::<Seq<char>>::empty());
    }
    while i < n
        invariant
            n == names@.len(),
            i <= n,
            all_names == names@.map_values(|s: String| s@),
            query_owned@ == query@,
            hits@.map_values(|u: usize| u as int) == matching_name_indices(
                query@,
                all_names.take(i as int),
            ),
            forall|m: int| 0 <= m < hits@.len() ==> #[trigger] hits@[m] < i,
        decreases n - i,
    {
        let name = &names[i];
        if *name == query_owned {
            hits.push(i);
        }
        i += 1;
        proof {
            let taken = all_names.take(i as int);
            assert(taken.drop_last() =~= all_names.take(i - 1));
            assert(taken.last() == all_names[i - 1]);
            assert(all_names[i - 1] == name@);
            assert(hits@.map_values(|u: usize| u as int) =~= matching_name_indices(query@, taken));
        }
    }
    proof {
        assert(all_names.take(n as int) =~= all_names);
    }
    if hits.len() == 0 {
        let suggestions = did_you_mean(query, names);
        Resolution::NoMatch { suggestions }
    } else if hits.len() == 1 {
        let index = hits[0];
        proof {
            assert(hits@.map_values(|u: usize| u as int)[0] == index as int);
        }
        Resolution::Unique { index }
    } else {
        Resolution::Ambiguous { indices: hits }
    }
}

/// Law: when at least two candidates bear exactly the queried name, the
/// resolver reports an ambiguity — it never silently picks one — and
/// every index that an explicit selection may then choose denotes a
/// candidate bearing exactly the queried name.
pub proof fn lemma_duplicates_need_explicit_choice(
    query: Seq<char>,
    names: Seq<Seq<char>>,
    choice: int,
)
    requires
        matching_name_indices(query, names).len() >= 2,
        0 <= choice < matching_name_indices(query, names).len(),
    ensures
        resolution_of(query, names) matches ResolutionView::Ambiguous { indices }
            && indices == matching_name_indices(query, names)
            && 0 <= indices[choice] < names.len()
            && names[indices[choice]] == query,
{
    lemma_matching_name_indices_sound(query, names, choice);
}

/// Validate the index a user typed during interactive disambiguation:
/// only an in-range index is accepted, anything else demands a re-prompt.
pub fn validate_selection(input: Option<usize>, count: usize) -> (r: Option<usize>)
    ensures
        r == (match input {
            Some(i) => if i < count {
                Some(i)
            } else {
                None::<usize>
            },
            None => None::<usize>,
        }),
{
    match input {
        Some(i) => if i < count {
            Some(i)
        } else {
            None
        },
        None => None,
    }
}

/// The candidate that an explicit selection picked: `indices` lists the
/// duplicate candidates' positions and `choice` is the validated index
/// the user chose among them.
pub fn chosen_candidate<'a, T>(items: &'a Vec<T>, indices: &Vec<usize>, choice: usize) -> (r: &'a
    T)
    requires
        choice < indices@.len(),
        forall|j: int| 0 <= j < indices@.len() ==> #[trigger] indices@[j] < items@.len(),
    ensures
        *r == items@[indices@[choice as int] as int],
{
    let at = indices[choice];
    &items[at]
}

/// What `str::trim` leaves: the character sequence with leading and
/// trailing whitespace removed, a function of the characters alone.
pub uninterp spec fn trimmed_of(s: Seq<char>) -> Seq<char>;

/// Relies on str::trim: removes leading and trailing whitespace and
/// nothing else; the result depends on the character sequence alone.
#[verifier::external_body]
pub(crate) fn trim_str(s: &str) -> (r: &str)
    ensures
        r@ == trimmed_of(s@),
{
    s.trim()
}

} // verus!
