//! Workshop URL lists: reading the item id out of a URL, removing repeated
//! URLs, merging two lists, and dropping finished lines from a URL file.
use vstd::prelude::*;

use crate::text::{
    chars_of, contains_text, find_chars, find_from, matches_at, split_chars, split_on,
    string_of,
};

verus! {

// ---------------------------------------------------------------------------
// Mathematical model
// ---------------------------------------------------------------------------

/// The query marker that precedes a workshop item id: `"?id="`.
pub open spec fn id_marker() -> Seq<char> {
    seq!['?', 'i', 'd', '=']
}

/// The second piece of `url` split at `"?id="`: the text after the first
/// marker up to the next marker or the end; empty when there is no marker.
pub open spec fn id_segment(url: Seq<char>) -> Seq<char> {
    match find_from(url, id_marker(), 0) {
        None => Seq::<char>::empty(),
        Some(i) => {
            let start = i + id_marker().len();
            match find_from(url, id_marker(), start) {
                Some(j) => url.subrange(start, j),
                None => url.subrange(start, url.len() as int),
            }
        },
    }
}

/// The workshop item id named by `url`: its id segment, cut before the
/// first `'&'`.
pub open spec fn workshop_id(url: Seq<char>) -> Seq<char> {
    let seg = id_segment(url);
    match find_from(seg, seq!['&'], 0) {
        Some(k) => seg.subrange(0, k),
        None => seg,
    }
}

/// The items of `s` that occur for the first time, in their order.
pub open spec fn first_occurrences<A>(s: Seq<A>) -> Seq<A>
    decreases s.len(),
{
    if s.len() == 0 {
        Seq::<A>::empty()
    } else {
        let prev = first_occurrences(s.drop_last());
        if s.drop_last().contains(s.last()) {
            prev
        } else {
            prev.push(s.last())
        }
    }
}

/// `k` is one of the listed line numbers.
pub open spec fn listed(k: int, numbers: Seq<usize>) -> bool {
    exists|j: int| 0 <= j < numbers.len() && numbers[j] as int == k
}

/// The pieces whose position is not listed, each followed by `'\n'`.
pub open spec fn kept_lines(pieces: Seq<Seq<char>>, removed: Seq<usize>) -> Seq<char>
    decreases pieces.len(),
{
    if pieces.len() == 0 {
        Seq::<char>::empty()
    } else {
        let prev = kept_lines(pieces.drop_last(), removed);
        if listed(pieces.len() - 1, removed) {
            prev
        } else {
            prev + pieces.last() + seq!['\n']
        }
    }
}

// ---------------------------------------------------------------------------
// Lemmas
// ---------------------------------------------------------------------------

/// Positions where `pat` does not occur can be skipped by the search.
pub proof fn lemma_find_skip(s: Seq<char>, pat: Seq<char>, start: int, t: int)
    requires
        0 <= start <= t,
        forall|k: int| start <= k < t ==> !matches_at(s, pat, k),
    ensures
        find_from(s, pat, start) == find_from(s, pat, t),
    decreases t - start,
{
    if start < t && start + pat.len() <= s.len() {
        lemma_find_skip(s, pat, start + 1, t);
    } else if start < t {
        assert(find_from(s, pat, start) is None);
        lemma_find_none_beyond(s, pat, t);
    }
}

/// No match can start where the pattern would run past the end.
proof fn lemma_find_none_beyond(s: Seq<char>, pat: Seq<char>, t: int)
    requires
        t + pat.len() > s.len(),
    ensures
        find_from(s, pat, t) is None,
{
}

/// A position whose character differs from the first character of `pat`
/// holds no occurrence of `pat`.
pub proof fn lemma_no_match_at(s: Seq<char>, pat: Seq<char>, k: int)
    requires
        pat.len() > 0,
        0 <= k < s.len(),
        s[k] != pat[0],
    ensures
        !matches_at(s, pat, k),
{
    if matches_at(s, pat, k) {
        assert(s.subrange(k, k + pat.len())[0] == s[k]);
    }
}

/// Every item of `s` and nothing else is in its first occurrences.
pub proof fn lemma_first_occurrences_contains<A>(s: Seq<A>, x: A)
    ensures
        first_occurrences(s).contains(x) <==> s.contains(x),
    decreases s.len(),
{
    if s.len() > 0 {
        let p = s.drop_last();
        lemma_first_occurrences_contains(p, x);
        assert(p.push(s.last()) =~= s);
        vstd::seq_lib::lemma_seq_contains_after_push(p, s.last(), x);
        vstd::seq_lib::lemma_seq_contains_after_push(first_occurrences(p), s.last(), x);
    }
}

/// First occurrences never repeat an item.
pub proof fn lemma_first_occurrences_distinct<A>(s: Seq<A>)
    ensures
        first_occurrences(s).no_duplicates(),
    decreases s.len(),
{
    if s.len() > 0 {
        let p = s.drop_last();
        lemma_first_occurrences_distinct(p);
        lemma_first_occurrences_contains(p, s.last());
    }
}

/// A list without repeats is its own first occurrences.
pub proof fn lemma_first_occurrences_of_distinct<A>(s: Seq<A>)
    requires
        s.no_duplicates(),
    ensures
        first_occurrences(s) == s,
    decreases s.len(),
{
    if s.len() > 0 {
        let p = s.drop_last();
        assert(p.no_duplicates()) by {
            assert forall|i: int, j: int|
                0 <= i < p.len() && 0 <= j < p.len() && i != j implies p[i] != p[j] by {
                assert(p[i] == s[i] && p[j] == s[j]);
            }
        }
        lemma_first_occurrences_of_distinct(p);
        assert(!p.contains(s.last())) by {
            if p.contains(s.last()) {
                let k = choose|k: int| 0 <= k < p.len() && p[k] == s.last();
                assert(s[k] == s[s.len() - 1]);
            }
        }
        assert(p.push(s.last()) =~= s);
    }
}

// ---------------------------------------------------------------------------
// Laws
// ---------------------------------------------------------------------------

/// A workshop URL `<base>?id=<id>` whose base holds no `'?'`, possibly
/// followed by further query parameters that start with `'&'`, names `<id>`
/// when the id holds neither `'?'` nor `'&'`.
pub proof fn law_workshop_id_of_url(base: Seq<char>, id: Seq<char>, rest: Seq<char>)
    requires
        !base.contains('?'),
        !id.contains('?'),
        !id.contains('&'),
        rest.len() == 0 || rest[0] == '&',
    ensures
        workshop_id(base + id_marker() + id + rest) == id,
{
    let m = id_marker();
    let u = base + m + id + rest;
    let start: int = base.len() + 4int;
    assert forall|k: int| 0 <= k < base.len() implies !matches_at(u, m, k) by {
        assert(u[k] == base[k]);
        if u[k] == '?' {
            assert(base.contains('?'));
        }
        lemma_no_match_at(u, m, k);
    }
    assert(u.subrange(base.len() as int, start) =~= m);
    lemma_find_skip(u, m, 0, base.len() as int);
    assert(find_from(u, m, 0) == Some(base.len() as int));
    let stop: int = start + id.len();
    assert forall|k: int| start <= k < stop implies !matches_at(u, m, k) by {
        assert(u[k] == id[k - start]);
        if u[k] == '?' {
            assert(id.contains('?'));
        }
        lemma_no_match_at(u, m, k);
    }
    lemma_find_skip(u, m, start, stop);
    if rest.len() > 0 {
        assert(u[stop] == '&');
        lemma_no_match_at(u, m, stop);
        lemma_find_skip(u, m, start, stop + 1);
        crate::text::lemma_find_found(u, m, stop + 1);
    } else {
        crate::text::lemma_find_found(u, m, stop);
    }
    let seg = id_segment(u);
    assert(seg.len() >= id.len());
    assert(seg.subrange(0, id.len() as int) =~= id);
    let amp = seq!['&'];
    assert forall|k: int| 0 <= k < id.len() implies !matches_at(seg, amp, k) by {
        assert(seg[k] == id[k]);
        if seg[k] == '&' {
            assert(id.contains('&'));
        }
        lemma_no_match_at(seg, amp, k);
    }
    lemma_find_skip(seg, amp, 0, id.len() as int);
    if seg.len() > id.len() {
        assert(seg[id.len() as int] == '&');
        assert(seg.subrange(id.len() as int, id.len() + 1int) =~= amp);
    } else {
        assert(seg =~= id);
    }
}

/// An item id never holds `'&'`.
pub proof fn law_workshop_id_has_no_ampersand(url: Seq<char>)
    ensures
        !workshop_id(url).contains('&'),
{
    let seg = id_segment(url);
    let amp = seq!['&'];
    crate::text::lemma_find_found(seg, amp, 0);
    let id = workshop_id(url);
    if id.contains('&') {
        let j = choose|j: int| 0 <= j < id.len() && id[j] == '&';
        assert(seg[j] == '&');
        assert(seg.subrange(j, j + 1) =~= amp);
        assert(matches_at(seg, amp, j));
    }
}

/// Joining pieces, each followed by `'\n'`, is their join plus a final `'\n'`.
proof fn lemma_kept_none(pieces: Seq<Seq<char>>)
    requires
        pieces.len() >= 1,
    ensures
        kept_lines(pieces, Seq::<usize>::empty()) == crate::text::join_with(pieces, seq!['\n'])
            + seq!['\n'],
    decreases pieces.len(),
{
    let p = pieces.drop_last();
    assert(!listed(pieces.len() - 1, Seq::<usize>::empty()));
    if pieces.len() == 1 {
        assert(!listed(0, Seq::<usize>::empty()));
        assert(kept_lines(p, Seq::<usize>::empty()) == Seq::<char>::empty());
        assert(Seq::<char>::empty() + pieces.last() + seq!['\n'] =~= pieces[0] + seq!['\n']);
    } else {
        lemma_kept_none(p);
    }
}

/// Removing no line from the URL file only adds a final `'\n'`.
pub proof fn law_remove_nothing(contents: Seq<char>)
    ensures
        kept_lines(split_on(contents, '\n'), Seq::<usize>::empty()) == contents + seq!['\n'],
{
    crate::text::lemma_split_on_nonempty(contents, '\n');
    lemma_kept_none(split_on(contents, '\n'));
    crate::text::law_split_then_join(contents, '\n');
}

/// A URL without `"?id="` names no item.
pub proof fn law_no_marker_no_id(url: Seq<char>)
    requires
        !contains_text(url, id_marker()),
    ensures
        workshop_id(url) == Seq::<char>::empty(),
{
    crate::text::lemma_find_found(Seq::<char>::empty(), seq!['&'], 0);
}

/// Removing repeats keeps, in their order, the first occurrence of each
/// item: the result is the input at strictly increasing positions `idx`,
/// each the first position of its item.
pub proof fn law_remove_duplicates_keeps_first_occurrences<A>(s: Seq<A>) -> (idx: Seq<int>)
    ensures
        idx.len() == first_occurrences(s).len(),
        forall|k: int| 0 <= k < idx.len() ==> 0 <= #[trigger] idx[k] < s.len(),
        forall|k: int, l: int| 0 <= k < l < idx.len() ==> idx[k] < idx[l],
        forall|k: int| 0 <= k < idx.len() ==> s[#[trigger] idx[k]] == first_occurrences(s)[k],
        forall|k: int| 0 <= k < idx.len() ==> !s.take(#[trigger] idx[k]).contains(s[idx[k]]),
    decreases s.len(),
{
    if s.len() == 0 {
        Seq::<int>::empty()
    } else {
        let p = s.drop_last();
        let pidx = law_remove_duplicates_keeps_first_occurrences(p);
        assert forall|k: int| 0 <= k < pidx.len() implies s.take(#[trigger] pidx[k]) =~= p.take(
            pidx[k],
        ) && s[pidx[k]] == p[pidx[k]] by {}
        if p.contains(s.last()) {
            pidx
        } else {
            let n = s.len() - 1;
            let idx = pidx.push(n);
            assert(s.take(n) =~= p);
            assert(s[n] == s.last());
            assert forall|k: int| 0 <= k < idx.len() implies 0 <= #[trigger] idx[k] < s.len() by {
                if k < pidx.len() {
                    assert(idx[k] == pidx[k]);
                }
            }
            assert forall|k: int| 0 <= k < idx.len() implies s[#[trigger] idx[k]]
                == first_occurrences(s)[k] by {
                if k < pidx.len() {
                    assert(idx[k] == pidx[k]);
                }
            }
            assert forall|k: int| 0 <= k < idx.len() implies !s.take(#[trigger] idx[k]).contains(
                s[idx[k]],
            ) by {
                if k < pidx.len() {
                    assert(idx[k] == pidx[k]);
                }
            }
            idx
        }
    }
}

/// Removing repeats twice is the same as removing them once.
pub proof fn law_remove_duplicates_idempotent<A>(s: Seq<A>)
    ensures
        first_occurrences(first_occurrences(s)) == first_occurrences(s),
{
    lemma_first_occurrences_distinct(s);
    lemma_first_occurrences_of_distinct(first_occurrences(s));
}

/// The merged list holds each URL of either list exactly once, and nothing else.
pub proof fn law_combined_list_is_union<A>(a: Seq<A>, b: Seq<A>, x: A)
    ensures
        first_occurrences(a + b).contains(x) <==> (a.contains(x) || b.contains(x)),
        first_occurrences(a + b).no_duplicates(),
{
    lemma_first_occurrences_contains(a + b, x);
    lemma_first_occurrences_distinct(a + b);
    vstd::seq_lib::lemma_seq_concat_contains_all_elements(a, b, x);
}

/// Merging is symmetric up to order: both merges hold the same URLs.
pub proof fn law_combine_symmetric<A>(a: Seq<A>, b: Seq<A>)
    ensures
        first_occurrences(a + b).to_set() == first_occurrences(b + a).to_set(),
{
    assert forall|x: A| #[trigger]
        first_occurrences(a + b).to_set().contains(x) == first_occurrences(
            b + a,
        ).to_set().contains(x) by {
        law_combined_list_is_union(a, b, x);
        law_combined_list_is_union(b, a, x);
    }
    assert(first_occurrences(a + b).to_set() =~= first_occurrences(b + a).to_set());
}

// ---------------------------------------------------------------------------
// Executable functions
// ---------------------------------------------------------------------------

/// The workshop item id in `url`: the part after `"?id="` and before the next
/// `"?id="` or `'&'`; empty when the URL has no `"?id="`.
pub fn extract_id(url: &str) -> (r: String)
    ensures
        r@ == workshop_id(url@),
{
    let u = chars_of(url);
    let mut marker: Vec<char> = Vec::new();
    marker.push('?');
    marker.push('i');
    marker.push('d');
    marker.push('=');
    assert(marker@ =~= id_marker());
    let n = u.len();
    let (from, to) = match find_chars(&u, &marker, 0) {
        None => (0, 0),
        Some(i) => {
            let start = i + 4;
            match find_chars(&u, &marker, start) {
                Some(j) => (start, j),
                None => (start, n),
            }
        },
    };
    proof {
        if find_from(u@, id_marker(), 0) is None {
            assert(u@.subrange(0, 0) =~= Seq::<char>::empty());
        }
    }
    let seg = string_of(&u, from, to);
    let sc = chars_of(seg.as_str());
    let mut amp: Vec<char> = Vec::new();
    amp.push('&');
    assert(amp@ =~= seq!['&']);
    match find_chars(&sc, &amp, 0) {
        Some(k) => string_of(&sc, 0, k),
        None => {
            assert(sc@.subrange(0, sc@.len() as int) =~= sc@);
            string_of(&sc, 0, sc.len())
        },
    }
}

/// Whether `list` holds a string equal to `x`.
pub fn contains_string(list: &Vec<String>, x: &String) -> (r: bool)
    ensures
        r == list.deep_view().contains(x@),
{
    let mut i: usize = 0;
    while i < list.len()
        invariant
            i <= list@.len(),
            forall|k: int| 0 <= k < i ==> list.deep_view()[k] != x@,
        decreases list.len() - i,
    {
        if list[i] == *x {
            assert(list.deep_view()[i as int] == x@);
            return true;
        }
        i += 1;
    }
    false
}

/// The URLs in their order with every repeat of an earlier URL left out.
pub fn remove_duplicates(urls: Vec<String>) -> (r: Vec<String>)
    ensures
        r.deep_view() == first_occurrences(urls.deep_view()),
{
    let ghost all = urls.deep_view();
    let mut result: Vec<String> = Vec::new();
    let mut i: usize = 0;
    assert(all.take(0) =~= Seq::<Seq<char>>::empty());
    while i < urls.len()
        invariant
            all == urls.deep_view(),
            i <= urls@.len(),
            result.deep_view() == first_occurrences(all.take(i as int)),
        decreases urls.len() - i,
    {
        let url = &urls[i];
        let ghost prefix = all.take(i as int);
        proof {
            assert(all.take(i + 1).drop_last() =~= prefix);
            assert(all.take(i + 1).last() == url@);
            lemma_first_occurrences_contains(prefix, url@);
        }
        if !contains_string(&result, url) {
            let ghost before = result.deep_view();
            result.push(url.clone());
            assert(result.deep_view() =~= before.push(url@));
        }
        i += 1;
    }
    assert(all.take(urls@.len() as int) =~= all);
    result
}

/// The URLs of both lists, each once: those of the first list in order,
/// then those of the second that the first does not hold.
pub fn combine_lists(urls1: Vec<String>, urls2: Vec<String>) -> (r: Vec<String>)
    ensures
        r.deep_view() == first_occurrences(urls1.deep_view() + urls2.deep_view()),
{
    let ghost a = urls1.deep_view();
    let ghost b = urls2.deep_view();
    let mut all = urls1;
    let mut second = urls2;
    all.append(&mut second);
    assert(all.deep_view() =~= a + b);
    remove_duplicates(all)
}

/// Whether `n` is one of `numbers`.
fn is_listed(numbers: &Vec<usize>, n: usize) -> (r: bool)
    ensures
        r == listed(n as int, numbers@),
{
    let mut i: usize = 0;
    while i < numbers.len()
        invariant
            i <= numbers@.len(),
            forall|k: int| 0 <= k < i ==> numbers@[k] != n,
        decreases numbers.len() - i,
    {
        if numbers[i] == n {
            return true;
        }
        i += 1;
    }
    false
}

/// The URL file text without the given lines: the text is cut at each
/// `'\n'`, and every piece whose position is not listed is written back
/// followed by `'\n'`.
pub fn remove_done(contents: &str, lines_to_remove: &Vec<usize>) -> (r: String)
    ensures
        r@ == kept_lines(split_on(contents@, '\n'), lines_to_remove@),
{
    let chars = chars_of(contents);
    let pieces = split_chars(&chars, '\n');
    let ghost all = pieces.deep_view();
    let mut out = String::new();
    let mut i: usize = 0;
    assert(all.take(0) =~= Seq::<Seq<char>>::empty());
    while i < pieces.len()
        invariant
            all == pieces.deep_view(),
            i <= pieces@.len(),
            out@ == kept_lines(all.take(i as int), lines_to_remove@),
        decreases pieces.len() - i,
    {
        proof {
            assert(all.take(i + 1).drop_last() =~= all.take(i as int));
            assert(all.take(i + 1).last() == pieces@[i as int]@);
        }
        if !is_listed(lines_to_remove, i) {
            out.append(pieces[i].as_str());
            crate::text::push_char(&mut out, '\n');
        }
        i += 1;
    }
    assert(all.take(pieces@.len() as int) =~= all);
    out
}

} // verus!
