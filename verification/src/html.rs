//! Reading the mod links out of a saved workshop collection page.
use vstd::prelude::*;

use crate::text::{join_lines, join_with, split_on};
use crate::urls::{first_occurrences, remove_duplicates};

verus! {

// ---------------------------------------------------------------------------
// What the HTML parser reports
// ---------------------------------------------------------------------------

/// What `scraper` reports for an HTML fragment: `None` when it rejects one of
/// the two CSS selectors; otherwise, for each element matching the outer
/// selector in document order, the value of the attribute `attr` (if present)
/// of each of its descendants matching the inner selector, in document order.
pub uninterp spec fn scraped_attrs(
    html: Seq<char>,
    outer: Seq<char>,
    inner: Seq<char>,
    attr: Seq<char>,
) -> Option<Seq<Seq<Option<Seq<char>>>>>;

/// Parses `html` as a fragment with `scraper::Html::parse_fragment`, parses
/// both selectors with `scraper::Selector::parse`, and for each element that
/// `Html::select` yields for the outer selector lists, through
/// `ElementRef::select` and `ElementRef::attr`, the attribute `attr` of its
/// descendants matching the inner selector.
/// The contract claims only that the result is a function of the four
/// arguments (named `scraped_attrs`): what HTML parsing and CSS matching
/// yield is not stated.
#[verifier::external_body]
fn select_grouped_attrs(html: &str, outer: &str, inner: &str, attr: &str) -> (r: Option<
    Vec<Vec<Option<String>>>,
>)
    ensures
        r.deep_view() == scraped_attrs(html@, outer@, inner@, attr@),
{
    let doc = scraper::Html::parse_fragment(html);
    let outer_sel = scraper::Selector::parse(outer).ok()?;
    let inner_sel = scraper::Selector::parse(inner).ok()?;
    Some(
        doc.select(&outer_sel).map(
            |group| group.select(&inner_sel).map(|e| e.attr(attr).map(|v| v.to_string())).collect(),
        ).collect(),
    )
}

// ---------------------------------------------------------------------------
// Mathematical model
// ---------------------------------------------------------------------------

/// The selector of a mod card: `".card"`.
pub open spec fn card_selector() -> Seq<char> {
    seq!['.', 'c', 'a', 'r', 'd']
}

/// The selector of a link: `"a"`.
pub open spec fn link_selector() -> Seq<char> {
    seq!['a']
}

/// The attribute that holds a link's target: `"href"`.
pub open spec fn href_attr() -> Seq<char> {
    seq!['h', 'r', 'e', 'f']
}

/// The values that are present, in order.
pub open spec fn present_values(links: Seq<Option<Seq<char>>>) -> Seq<Seq<char>>
    decreases links.len(),
{
    if links.len() == 0 {
        Seq::<Seq<char>>::empty()
    } else {
        let prev = present_values(links.drop_last());
        match links.last() {
            Some(v) => prev.push(v),
            None => prev,
        }
    }
}

/// The present link targets of all cards, card after card.
pub open spec fn card_hrefs(cards: Seq<Seq<Option<Seq<char>>>>) -> Seq<Seq<char>>
    decreases cards.len(),
{
    if cards.len() == 0 {
        Seq::<Seq<char>>::empty()
    } else {
        card_hrefs(cards.drop_last()) + present_values(cards.last())
    }
}

/// The URL file that a collection page gives: its card link targets, each
/// once, joined by `'\n'`.
pub open spec fn url_file_of(cards: Seq<Seq<Option<Seq<char>>>>) -> Seq<char> {
    join_with(first_occurrences(card_hrefs(cards)), seq!['\n'])
}

// ---------------------------------------------------------------------------
// Laws
// ---------------------------------------------------------------------------

/// The present values are exactly the values of the links that have one.
proof fn lemma_present_values_contains(links: Seq<Option<Seq<char>>>, v: Seq<char>)
    ensures
        present_values(links).contains(v) <==> exists|j: int|
            0 <= j < links.len() && #[trigger] links[j] == Some(v),
    decreases links.len(),
{
    if links.len() > 0 {
        let p = links.drop_last();
        lemma_present_values_contains(p, v);
        let prev = present_values(p);
        match links.last() {
            Some(w) => vstd::seq_lib::lemma_seq_contains_after_push(prev, w, v),
            None => {},
        }
        if exists|j: int| 0 <= j < links.len() && #[trigger] links[j] == Some(v) {
            let j = choose|j: int| 0 <= j < links.len() && #[trigger] links[j] == Some(v);
            if j < p.len() {
                assert(p[j] == Some(v));
            }
        }
        if exists|j: int| 0 <= j < p.len() && #[trigger] p[j] == Some(v) {
            let j = choose|j: int| 0 <= j < p.len() && #[trigger] p[j] == Some(v);
            assert(links[j] == Some(v));
        }
    }
}

/// The card link targets are exactly the values of the links of the cards
/// that have one.
proof fn lemma_card_hrefs_contains(cards: Seq<Seq<Option<Seq<char>>>>, v: Seq<char>)
    ensures
        card_hrefs(cards).contains(v) <==> exists|i: int, j: int|
            0 <= i < cards.len() && 0 <= j < cards[i].len() && #[trigger] cards[i][j] == Some(v),
    decreases cards.len(),
{
    if cards.len() > 0 {
        let p = cards.drop_last();
        let last = cards.last();
        lemma_card_hrefs_contains(p, v);
        lemma_present_values_contains(last, v);
        vstd::seq_lib::lemma_seq_concat_contains_all_elements(
            card_hrefs(p),
            present_values(last),
            v,
        );
        if exists|i: int, j: int|
            0 <= i < cards.len() && 0 <= j < cards[i].len() && #[trigger] cards[i][j] == Some(v) {
            let (i, j) = choose|i: int, j: int|
                0 <= i < cards.len() && 0 <= j < cards[i].len() && #[trigger] cards[i][j] == Some(
                    v,
                );
            if i < p.len() {
                assert(p[i][j] == Some(v));
            } else {
                assert(last[j] == Some(v));
            }
        }
        if exists|i: int, j: int|
            0 <= i < p.len() && 0 <= j < p[i].len() && #[trigger] p[i][j] == Some(v) {
            let (i, j) = choose|i: int, j: int|
                0 <= i < p.len() && 0 <= j < p[i].len() && #[trigger] p[i][j] == Some(v);
            assert(cards[i][j] == Some(v));
        }
        if exists|j: int| 0 <= j < last.len() && #[trigger] last[j] == Some(v) {
            let j = choose|j: int| 0 <= j < last.len() && #[trigger] last[j] == Some(v);
            assert(cards[cards.len() - 1][j] == Some(v));
        }
    }
}

/// The lines of the URL file are the link targets of the page's cards:
/// every link of every card that has a target is a line of the file, every
/// line is such a target, and no line comes twice, provided no target
/// holds a `'\n'`.
pub proof fn law_url_file_lists_every_card_link(cards: Seq<Seq<Option<Seq<char>>>>, v: Seq<char>)
    requires
        forall|i: int, j: int|
            0 <= i < cards.len() && 0 <= j < cards[i].len() && (#[trigger] cards[i][j]) is Some
                ==> !cards[i][j]->0.contains('\n'),
    ensures
        (exists|i: int, j: int|
            0 <= i < cards.len() && 0 <= j < cards[i].len() && #[trigger] cards[i][j] == Some(v))
            ==> split_on(url_file_of(cards), '\n').contains(v),
        card_hrefs(cards).len() > 0 ==> {
            &&& split_on(url_file_of(cards), '\n').no_duplicates()
            &&& split_on(url_file_of(cards), '\n').contains(v) ==> exists|i: int, j: int|
                0 <= i < cards.len() && 0 <= j < cards[i].len() && #[trigger] cards[i][j]
                    == Some(v)
        },
{
    let hrefs = card_hrefs(cards);
    let list = first_occurrences(hrefs);
    lemma_card_hrefs_contains(cards, v);
    crate::urls::lemma_first_occurrences_contains(hrefs, v);
    crate::urls::lemma_first_occurrences_distinct(hrefs);
    assert forall|k: int| 0 <= k < list.len() implies !(#[trigger] list[k]).contains('\n') by {
        let w = list[k];
        crate::urls::lemma_first_occurrences_contains(hrefs, w);
        lemma_card_hrefs_contains(cards, w);
        assert(list.contains(w));
        let (i, j) = choose|i: int, j: int|
            0 <= i < cards.len() && 0 <= j < cards[i].len() && #[trigger] cards[i][j] == Some(w);
        assert(cards[i][j] == Some(w));
    }
    if list.len() >= 1 {
        crate::text::lemma_split_join(list, '\n');
    } else if hrefs.contains(v) {
        assert(list.contains(v));
    }
    if hrefs.len() > 0 {
        crate::urls::lemma_first_occurrences_contains(hrefs, hrefs[0]);
        assert(hrefs.contains(hrefs[0]));
        assert(list.len() >= 1);
    }
}

// ---------------------------------------------------------------------------
// Executable functions
// ---------------------------------------------------------------------------

/// The link targets that are present, card after card and link after link.
pub fn hrefs_in_cards(cards: &Vec<Vec<Option<String>>>) -> (r: Vec<String>)
    ensures
        r.deep_view() == card_hrefs(cards.deep_view()),
{
    let ghost all = cards.deep_view();
    let mut hrefs: Vec<String> = Vec::new();
    let mut i: usize = 0;
    assert(all.take(0) =~= Seq::<Seq<Option<Seq<char>>>>::empty());
    while i < cards.len()
        invariant
            all == cards.deep_view(),
            i <= cards@.len(),
            hrefs.deep_view() == card_hrefs(all.take(i as int)),
        decreases cards.len() - i,
    {
        let card = &cards[i];
        let ghost links = card.deep_view();
        let ghost base = hrefs.deep_view();
        proof {
            assert(all[i as int] == links);
            assert(all.take(i + 1).drop_last() =~= all.take(i as int));
            assert(all.take(i + 1).last() == links);
            assert(links.take(0) =~= Seq::<Option<Seq<char>>>::empty());
            assert(base =~= base + present_values(links.take(0)));
        }
        let mut j: usize = 0;
        while j < card.len()
            invariant
                links == card.deep_view(),
                j <= card@.len(),
                hrefs.deep_view() == base + present_values(links.take(j as int)),
            decreases card.len() - j,
        {
            proof {
                assert(links.take(j + 1).drop_last() =~= links.take(j as int));
                assert(links.take(j + 1).last() == card@[j as int].deep_view());
            }
            match &card[j] {
                Some(v) => {
                    let ghost before = hrefs.deep_view();
                    hrefs.push(v.clone());
                    assert(hrefs.deep_view() =~= before.push(v@));
                    assert(base + present_values(links.take(j + 1)) =~= (base + present_values(
                        links.take(j as int),
                    )).push(v@));
                },
                None => {},
            }
            j += 1;
        }
        assert(links.take(card@.len() as int) =~= links);
        i += 1;
    }
    assert(all.take(cards@.len() as int) =~= all);
    hrefs
}

/// The link targets of the mod cards of a workshop collection page: the
/// `href` of every `a` inside every `.card`, in document order. `None` when
/// the HTML parser rejects the selectors.
pub fn extract_hrefs(html: &str) -> (r: Option<Vec<String>>)
    ensures
        match scraped_attrs(html@, card_selector(), link_selector(), href_attr()) {
            Some(cards) => r matches Some(v) && v.deep_view() == card_hrefs(cards),
            None => r is None,
        },
{
    proof {
        reveal_strlit(".card");
        reveal_strlit("a");
        reveal_strlit("href");
        assert(".card"@ =~= card_selector());
        assert("a"@ =~= link_selector());
        assert("href"@ =~= href_attr());
    }
    match select_grouped_attrs(html, ".card", "a", "href") {
        Some(cards) => Some(hrefs_in_cards(&cards)),
        None => None,
    }
}

/// The URL file for a saved workshop collection page: the link targets of
/// its mod cards, each kept once in first-seen order, joined by `'\n'`.
/// `None` when the HTML parser rejects the selectors.
pub fn build_url_list(contents: &str) -> (r: Option<String>)
    ensures
        match scraped_attrs(contents@, card_selector(), link_selector(), href_attr()) {
            Some(cards) => r matches Some(s) && s@ == url_file_of(cards),
            None => r is None,
        },
{
    match extract_hrefs(contents) {
        Some(modlinks) => {
            let uniquelist = remove_duplicates(modlinks);
            Some(join_lines(&uniquelist))
        },
        None => None,
    }
}

} // verus!
