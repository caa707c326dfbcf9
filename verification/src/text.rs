//! Character-level text utilities: searching, splitting at a separator,
//! reading lines the way `BufRead::lines` does, and joining lines.
use vstd::prelude::*;

verus! {

// ---------------------------------------------------------------------------
// Mathematical model
// ---------------------------------------------------------------------------

/// `pat` occurs in `s` starting at position `i`.
pub open spec fn matches_at(s: Seq<char>, pat: Seq<char>, i: int) -> bool {
    &&& 0 <= i
    &&& i + pat.len() <= s.len()
    &&& s.subrange(i, i + pat.len()) == pat
}

/// The leftmost position at or after `start` where `pat` occurs in `s`.
pub open spec fn find_from(s: Seq<char>, pat: Seq<char>, start: int) -> Option<int>
    decreases s.len() + 1 - start,
{
    if start < 0 || start + pat.len() > s.len() {
        None
    } else if matches_at(s, pat, start) {
        Some(start)
    } else {
        find_from(s, pat, start + 1)
    }
}

/// `pat` occurs somewhere in `s` (what `str::contains` answers).
pub open spec fn contains_text(s: Seq<char>, pat: Seq<char>) -> bool {
    find_from(s, pat, 0) is Some
}

/// The pieces of `s` between occurrences of the character `c`
/// (what `str::split(c)` yields): always at least one piece.
pub open spec fn split_on(s: Seq<char>, c: char) -> Seq<Seq<char>>
    decreases s.len(),
{
    if s.len() == 0 {
        seq![Seq::<char>::empty()]
    } else {
        let prev = split_on(s.drop_last(), c);
        if s.last() == c {
            prev.push(Seq::<char>::empty())
        } else {
            prev.update(prev.len() - 1, prev.last().push(s.last()))
        }
    }
}

/// A line without the carriage return that ended it, if any.
pub open spec fn strip_cr(line: Seq<char>) -> Seq<char> {
    if line.len() > 0 && line.last() == '\r' {
        line.drop_last()
    } else {
        line
    }
}

/// The lines of a text as `BufRead::lines` reads them: the text is cut at
/// each `'\n'`; a line ended by `"\r\n"` loses the `'\r'`; the text after the
/// last `'\n'` is a line only when it is not empty.
pub open spec fn lines_of(s: Seq<char>) -> Seq<Seq<char>> {
    let pieces = split_on(s, '\n');
    let body = strip_all(pieces.drop_last());
    if pieces.last().len() == 0 {
        body
    } else {
        body.push(pieces.last())
    }
}

/// Each piece with its ending carriage return removed.
pub open spec fn strip_all(pieces: Seq<Seq<char>>) -> Seq<Seq<char>> {
    pieces.map_values(|p: Seq<char>| strip_cr(p))
}

/// The items of `list` with `sep` between each two of them (`join`).
pub open spec fn join_with(list: Seq<Seq<char>>, sep: Seq<char>) -> Seq<char>
    decreases list.len(),
{
    if list.len() == 0 {
        Seq::<char>::empty()
    } else if list.len() == 1 {
        list[0]
    } else {
        join_with(list.drop_last(), sep) + sep + list.last()
    }
}

// ---------------------------------------------------------------------------
// Lemmas
// ---------------------------------------------------------------------------

/// What a search finds: the first occurrence at or after `start`, or none.
pub proof fn lemma_find_found(s: Seq<char>, pat: Seq<char>, start: int)
    requires
        0 <= start,
    ensures
        match find_from(s, pat, start) {
            Some(i) => start <= i && matches_at(s, pat, i) && i + pat.len() <= s.len() && forall|
                k: int,
            | start <= k < i ==> !#[trigger] matches_at(s, pat, k),
            None => forall|k: int| start <= k ==> !#[trigger] matches_at(s, pat, k),
        },
    decreases s.len() + 1 - start,
{
    if !(start < 0 || start + pat.len() > s.len()) && !matches_at(s, pat, start) {
        lemma_find_found(s, pat, start + 1);
    }
}

/// `split_on` never yields an empty list of pieces.
pub proof fn lemma_split_on_nonempty(s: Seq<char>, c: char)
    ensures
        split_on(s, c).len() >= 1,
    decreases s.len(),
{
    if s.len() > 0 {
        lemma_split_on_nonempty(s.drop_last(), c);
    }
}

/// A text without the separator is a single piece.
pub proof fn lemma_split_on_without(s: Seq<char>, c: char)
    requires
        !s.contains(c),
    ensures
        split_on(s, c) == seq![s],
    decreases s.len(),
{
    if s.len() > 0 {
        let p = s.drop_last();
        assert(!p.contains(c)) by {
            if p.contains(c) {
                let k = choose|k: int| 0 <= k < p.len() && p[k] == c;
                assert(s[k] == c);
            }
        }
        lemma_split_on_without(p, c);
        assert(s.last() != c) by {
            assert(s[s.len() - 1] == s.last());
        }
        assert(p.push(s.last()) =~= s);
    } else {
        assert(s =~= Seq::<char>::empty());
    }
}

/// Splitting `a`, the separator, then `b` gives the pieces of `a` followed by
/// the pieces of `b`.
pub proof fn lemma_split_on_concat(a: Seq<char>, b: Seq<char>, c: char)
    ensures
        split_on(a + seq![c] + b, c) == split_on(a, c) + split_on(b, c),
    decreases b.len(),
{
    let s = a + seq![c] + b;
    lemma_split_on_nonempty(a, c);
    if b.len() == 0 {
        assert(s.drop_last() =~= a);
        assert(s.last() == c);
        assert(split_on(a, c).push(Seq::<char>::empty()) =~= split_on(a, c) + split_on(b, c));
    } else {
        let b0 = b.drop_last();
        lemma_split_on_concat(a, b0, c);
        lemma_split_on_nonempty(b0, c);
        assert(s.drop_last() =~= a + seq![c] + b0);
        assert(s.last() == b.last());
        let pa = split_on(a, c);
        let pb = split_on(b0, c);
        let prev = pa + pb;
        if b.last() == c {
            assert(prev.push(Seq::<char>::empty()) =~= pa + pb.push(Seq::<char>::empty()));
        } else {
            assert(prev.last() == pb.last());
            assert(prev.update(prev.len() - 1, prev.last().push(b.last())) =~= pa + pb.update(
                pb.len() - 1,
                pb.last().push(b.last()),
            ));
        }
    }
}

/// Joining pieces that hold no separator and splitting again gives the pieces back.
pub proof fn lemma_split_join(list: Seq<Seq<char>>, c: char)
    requires
        list.len() >= 1,
        forall|k: int| 0 <= k < list.len() ==> !(#[trigger] list[k]).contains(c),
    ensures
        split_on(join_with(list, seq![c]), c) == list,
    decreases list.len(),
{
    if list.len() == 1 {
        lemma_split_on_without(list[0], c);
        assert(list =~= seq![list[0]]);
    } else {
        let init = list.drop_last();
        assert forall|k: int| 0 <= k < init.len() implies !(#[trigger] init[k]).contains(c) by {
            assert(init[k] == list[k]);
        }
        lemma_split_join(init, c);
        lemma_split_on_concat(join_with(init, seq![c]), list.last(), c);
        assert(!list[list.len() - 1].contains(c));
        lemma_split_on_without(list.last(), c);
        assert(init + seq![list.last()] =~= list);
    }
}

/// Appending one character to the last piece of a list appends it to the join.
proof fn lemma_join_extend_last(list: Seq<Seq<char>>, sep: Seq<char>, x: char)
    requires
        list.len() >= 1,
    ensures
        join_with(list.update(list.len() - 1, list.last().push(x)), sep) == join_with(
            list,
            sep,
        ).push(x),
{
    let l2 = list.update(list.len() - 1, list.last().push(x));
    if list.len() == 1 {
        assert(l2[0] == list[0].push(x));
    } else {
        assert(l2.drop_last() =~= list.drop_last());
        assert(l2.last() == list.last().push(x));
        assert(join_with(list.drop_last(), sep) + sep + list.last().push(x) =~= (join_with(
            list.drop_last(),
            sep,
        ) + sep + list.last()).push(x));
    }
}

/// Joining the pieces of a text with the separator gives the text back.
pub proof fn lemma_join_split(s: Seq<char>, c: char)
    ensures
        join_with(split_on(s, c), seq![c]) == s,
    decreases s.len(),
{
    if s.len() == 0 {
        assert(s =~= Seq::<char>::empty());
    } else {
        let p = s.drop_last();
        lemma_join_split(p, c);
        lemma_split_on_nonempty(p, c);
        let prev = split_on(p, c);
        if s.last() == c {
            let l2 = prev.push(Seq::<char>::empty());
            assert(l2.drop_last() =~= prev);
            assert(join_with(prev, seq![c]) + seq![c] + Seq::<char>::empty() =~= s);
        } else {
            lemma_join_extend_last(prev, seq![c], s.last());
            assert(p.push(s.last()) =~= s);
        }
    }
}

// ---------------------------------------------------------------------------
// Laws
// ---------------------------------------------------------------------------

/// Writing lines joined by `'\n'` and reading the text back line by line gives
/// the same lines, provided that no line holds a `'\n'` or ends in `'\r'`, and
/// that the last line is not empty.
pub proof fn law_lines_of_joined(list: Seq<Seq<char>>)
    requires
        forall|k: int|
            0 <= k < list.len() ==> !(#[trigger] list[k]).contains('\n') && strip_cr(list[k])
                == list[k],
        list.len() == 0 || list.last().len() > 0,
    ensures
        lines_of(join_with(list, seq!['\n'])) == list,
{
    if list.len() == 0 {
        let pieces = split_on(Seq::<char>::empty(), '\n');
        assert(pieces.drop_last() =~= Seq::<Seq<char>>::empty());
        assert(lines_of(join_with(list, seq!['\n'])) =~= list);
    } else {
        lemma_split_join(list, '\n');
        let pieces = split_on(join_with(list, seq!['\n']), '\n');
        let body = strip_all(pieces.drop_last());
        assert(body.push(pieces.last()) =~= list) by {
            assert forall|k: int| 0 <= k < list.len() - 1 implies body[k] == list[k] by {
                assert(strip_cr(list[k]) == list[k]);
            }
        }
    }
}

/// A text contains a pattern exactly when the pattern stands at some
/// position of the text.
pub proof fn law_contains_text_means_occurs(s: Seq<char>, pat: Seq<char>)
    ensures
        contains_text(s, pat) <==> exists|i: int|
            0 <= i && i + pat.len() <= s.len() && #[trigger] s.subrange(i, i + pat.len()) == pat,
{
    lemma_find_found(s, pat, 0);
    if exists|i: int|
        0 <= i && i + pat.len() <= s.len() && #[trigger] s.subrange(i, i + pat.len()) == pat {
        let i = choose|i: int|
            0 <= i && i + pat.len() <= s.len() && #[trigger] s.subrange(i, i + pat.len()) == pat;
        assert(matches_at(s, pat, i));
    }
    if contains_text(s, pat) {
        let i = find_from(s, pat, 0)->0;
        assert(s.subrange(i, i + pat.len()) == pat);
    }
}

/// Cutting a text at a character and joining the pieces again with that
/// character gives the text back.
pub proof fn law_split_then_join(s: Seq<char>, c: char)
    ensures
        join_with(split_on(s, c), seq![c]) == s,
{
    lemma_join_split(s, c);
}

// ---------------------------------------------------------------------------
// Executable functions
// ---------------------------------------------------------------------------

/// Appends one character to a `String`.
/// Calls `String::push`, which std documents as appending the given char
/// to the end of the string; the contract says exactly that.
#[verifier::external_body]
pub(crate) fn push_char(s: &mut String, c: char)
    ensures
        final(s)@ == old(s)@.push(c),
{
    s.push(c);
}

/// The characters of a string slice, in order.
pub fn chars_of(s: &str) -> (r: Vec<char>)
    ensures
        r@ == s@,
{
    broadcast use vstd::string::group_string_axioms;

    let mut r: Vec<char> = Vec::new();
    for c in it: s.chars()
        invariant
            it.seq() == s@,
            r@ == it.seq().take(it.index()),
    {
        r.push(c);
    }
    r
}

/// The characters `from..to` of `chars`, as a `String`.
pub fn string_of(chars: &Vec<char>, from: usize, to: usize) -> (r: String)
    requires
        from <= to <= chars@.len(),
    ensures
        r@ == chars@.subrange(from as int, to as int),
{
    let mut r = String::new();
    let mut i = from;
    while i < to
        invariant
            from <= i <= to <= chars@.len(),
            r@ == chars@.subrange(from as int, i as int),
        decreases to - i,
    {
        push_char(&mut r, chars[i]);
        assert(chars@.subrange(from as int, i + 1) =~= chars@.subrange(from as int, i as int).push(
            chars@[i as int],
        ));
        i += 1;
    }
    r
}

/// Whether two texts are equal.
pub fn same_text(a: &str, b: &str) -> (r: bool)
    ensures
        r == (a@ == b@),
{
    let x = chars_of(a);
    let y = chars_of(b);
    if x.len() != y.len() {
        return false;
    }
    let mut i: usize = 0;
    while i < x.len()
        invariant
            x@ == a@,
            y@ == b@,
            x@.len() == y@.len(),
            i <= x@.len(),
            forall|k: int| 0 <= k < i ==> x@[k] == y@[k],
        decreases x.len() - i,
    {
        if x[i] != y[i] {
            return false;
        }
        i += 1;
    }
    assert(x@ =~= y@);
    true
}

/// Whether `pat` occurs in `s` at position `i`.
fn matches_at_exec(s: &Vec<char>, pat: &Vec<char>, i: usize) -> (r: bool)
    requires
        i + pat@.len() <= s@.len(),
    ensures
        r == matches_at(s@, pat@, i as int),
{
    let n = s.len();
    let mut k: usize = 0;
    while k < pat.len()
        invariant
            n == s@.len(),
            i + pat@.len() <= s@.len(),
            k <= pat@.len(),
            forall|j: int| 0 <= j < k ==> s@[i + j] == pat@[j],
        decreases pat.len() - k,
    {
        if s[i + k] != pat[k] {
            assert(s@.subrange(i as int, i + pat@.len())[k as int] != pat@[k as int]);
            return false;
        }
        k += 1;
    }
    assert(s@.subrange(i as int, i + pat@.len()) =~= pat@);
    true
}

/// The leftmost position at or after `start` where `pat` occurs in `s`.
pub fn find_chars(s: &Vec<char>, pat: &Vec<char>, start: usize) -> (r: Option<usize>)
    ensures
        match r {
            Some(i) => find_from(s@, pat@, start as int) == Some(i as int) && start <= i && i
                + pat@.len() <= s@.len(),
            None => find_from(s@, pat@, start as int) is None,
        },
{
    proof {
        lemma_find_found(s@, pat@, start as int);
    }
    if pat.len() > s.len() {
        return None;
    }
    let last = s.len() - pat.len();
    let mut i = start;
    if start > last {
        return None;
    }
    while i <= last
        invariant
            last + pat@.len() == s@.len(),
            start <= i <= last,
            find_from(s@, pat@, start as int) == find_from(s@, pat@, i as int),
        decreases last - i,
    {
        if matches_at_exec(s, pat, i) {
            return Some(i);
        }
        if i == last {
            return None;
        }
        i += 1;
    }
    None
}

/// Whether `pat` occurs in `s` (what `str::contains` answers).
pub fn contains_str(s: &str, pat: &str) -> (r: bool)
    ensures
        r == contains_text(s@, pat@),
{
    let x = chars_of(s);
    let p = chars_of(pat);
    find_chars(&x, &p, 0).is_some()
}

/// The pieces of `s` between occurrences of `c`, as `str::split(c)` yields them.
pub fn split_chars(s: &Vec<char>, c: char) -> (r: Vec<String>)
    ensures
        r.deep_view() == split_on(s@, c),
{
    let mut pieces: Vec<String> = Vec::new();
    let mut cur = String::new();
    let mut i: usize = 0;
    assert(s@.take(0) =~= Seq::<char>::empty());
    assert(pieces.deep_view().push(cur@) =~= split_on(s@.take(0), c));
    while i < s.len()
        invariant
            i <= s@.len(),
            pieces.deep_view().push(cur@) == split_on(s@.take(i as int), c),
        decreases s.len() - i,
    {
        let ch = s[i];
        let ghost prev = pieces.deep_view().push(cur@);
        proof {
            assert(s@.take(i + 1).drop_last() =~= s@.take(i as int));
            assert(s@.take(i + 1).last() == ch);
        }
        if ch == c {
            let ghost old_pieces = pieces.deep_view();
            pieces.push(cur);
            cur = String::new();
            assert(pieces.deep_view() =~= old_pieces.push(prev.last()));
            assert(pieces.deep_view().push(cur@) =~= prev.push(Seq::<char>::empty()));
        } else {
            let ghost old_cur = cur@;
            push_char(&mut cur, ch);
            assert(pieces.deep_view().push(cur@) =~= prev.update(
                prev.len() - 1,
                old_cur.push(ch),
            ));
        }
        i += 1;
    }
    assert(s@.take(s@.len() as int) =~= s@);
    let ghost before = pieces.deep_view();
    pieces.push(cur);
    assert(pieces.deep_view() =~= before.push(cur@));
    pieces
}

/// The lines of `text`, as `BufRead::lines` reads them.
pub fn split_lines(text: &str) -> (r: Vec<String>)
    ensures
        r.deep_view() == lines_of(text@),
{
    let chars = chars_of(text);
    let mut pieces = split_chars(&chars, '\n');
    proof {
        lemma_split_on_nonempty(text@, '\n');
    }
    let ghost all = pieces.deep_view();
    let last = pieces.pop().unwrap();
    assert(pieces.deep_view() =~= all.drop_last());
    let mut lines: Vec<String> = Vec::new();
    let mut i: usize = 0;
    while i < pieces.len()
        invariant
            all.len() >= 1,
            pieces.deep_view() == all.drop_last(),
            i <= pieces@.len(),
            lines.deep_view() == strip_all(all.drop_last()).take(i as int),
        decreases pieces.len() - i,
    {
        let piece = pieces[i].as_str();
        let pc = chars_of(piece);
        let n = pc.len();
        let line = if n > 0 && pc[n - 1] == '\r' {
            string_of(&pc, 0, n - 1)
        } else {
            string_of(&pc, 0, n)
        };
        proof {
            assert(pieces.deep_view()[i as int] == pieces@[i as int]@);
            assert(pc@.subrange(0, n as int) =~= pc@);
            assert(n > 0 ==> pc@.subrange(0, n - 1) =~= pc@.drop_last());
        }
        let ghost old_lines = lines.deep_view();
        lines.push(line);
        assert(lines.deep_view() =~= strip_all(all.drop_last()).take(i + 1)) by {
            assert(strip_all(all.drop_last())[i as int] == strip_cr(pc@));
            assert(lines.deep_view() =~= old_lines.push(line@));
        }
        i += 1;
    }
    let ghost body = strip_all(all.drop_last());
    assert(body.take(pieces@.len() as int) =~= body);
    if last.as_str().unicode_len() == 0 {
        lines
    } else {
        let ghost before = lines.deep_view();
        lines.push(last);
        assert(lines.deep_view() =~= before.push(all.last()));
        lines
    }
}

/// The items of `list` joined by `'\n'`.
pub fn join_lines(list: &Vec<String>) -> (r: String)
    ensures
        r@ == join_with(list.deep_view(), seq!['\n']),
{
    let mut r = String::new();
    let mut i: usize = 0;
    while i < list.len()
        invariant
            i <= list@.len(),
            r@ == join_with(list.deep_view().take(i as int), seq!['\n']),
        decreases list.len() - i,
    {
        let ghost prefix = list.deep_view().take(i as int);
        let ghost next = list.deep_view().take(i + 1);
        assert(next.drop_last() =~= prefix);
        assert(next.last() == list@[i as int]@);
        if i > 0 {
            push_char(&mut r, '\n');
        }
        r.append(list[i].as_str());
        if i == 0 {
            assert(next =~= seq![list@[0]@]);
        }
        i += 1;
    }
    assert(list.deep_view().take(list@.len() as int) =~= list.deep_view());
    r
}

} // verus!
