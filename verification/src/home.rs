//! The home feed: pages of several sources merged into one, and the cursors
//! by which clients ask for more of it.

use vstd::prelude::*;

use crate::model::{
    result_views, scoped_text, shelf_views, CatalogShelf, CatalogShelfView, SearchResult,
    SearchResultView,
};
use crate::player::next_number;
use crate::provider::{ProviderError, ProviderErrorView};
use crate::text::{
    clone_opt, concat2, concat3, decimal, decimal_text, lemma_decimal_round_trip, opt_eq, opt_text,
};

verus! {

/// A page of the feed. `next` leads to the page after it.
#[derive(Debug, PartialEq, Eq)]
pub struct HomePage {
    pub shelves: Vec<CatalogShelf>,
    pub next: Option<String>,
}

#[verifier::ext_equal]
pub struct HomePageView {
    pub shelves: Seq<CatalogShelfView>,
    pub next: Option<Seq<char>>,
}

impl View for HomePage {
    type V = HomePageView;

    open spec fn view(&self) -> HomePageView {
        HomePageView { shelves: shelf_views(self.shelves@), next: opt_text(self.next) }
    }
}

pub open spec fn page_views(v: Seq<HomePage>) -> Seq<HomePageView> {
    v.map_values(|p: HomePage| p@)
}

/// What identifies a card: its kind and its full id.
pub open spec fn card_key(card: SearchResultView) -> Seq<char> {
    match card {
        SearchResultView::Track(t) => "t:"@ + scoped_text(t.id),
        SearchResultView::Playlist(p) => "p:"@ + scoped_text(p.id),
        SearchResultView::Artist { provider, id, .. } => "a:"@ + provider + ":"@ + id,
    }
}

/// What identifies a card.
pub fn search_result_key(result: &SearchResult) -> (r: String)
    ensures
        r@ == card_key(result@),
{
    match result {
        SearchResult::Track(track) => concat2("t:", track.id.to_string().as_str()),
        SearchResult::Playlist(playlist) => concat2("p:", playlist.id.to_string().as_str()),
        SearchResult::Artist { provider, id, .. } => concat2(
            concat3("a:", provider.as_str(), ":").as_str(),
            id.as_str(),
        ),
    }
}

/// The keys of some cards.
pub open spec fn card_keys(cards: Seq<SearchResultView>) -> Set<Seq<char>>
    decreases cards.len(),
{
    if cards.len() == 0 {
        Set::empty()
    } else {
        card_keys(cards.drop_last()).insert(card_key(cards.last()))
    }
}

/// The cards that were not seen before, each key once.
pub open spec fn fresh_cards(
    cards: Seq<SearchResultView>,
    seen: Set<Seq<char>>,
) -> Seq<SearchResultView>
    decreases cards.len(),
{
    if cards.len() == 0 {
        Seq::empty()
    } else {
        let before = cards.drop_last();
        let kept = fresh_cards(before, seen);
        if seen.union(card_keys(before)).contains(card_key(cards.last())) {
            kept
        } else {
            kept.push(cards.last())
        }
    }
}

/// Whether two shelves are one: the same title and the same subtitle.
pub open spec fn same_head(a: CatalogShelfView, b: CatalogShelfView) -> bool {
    a.title == b.title && a.subtitle == b.subtitle
}

/// The first shelf at or after `from` with this head.
pub open spec fn shelf_place(
    shelves: Seq<CatalogShelfView>,
    head: CatalogShelfView,
    from: int,
) -> Option<int>
    decreases shelves.len() - from,
{
    if from >= shelves.len() {
        None
    } else if same_head(shelves[from], head) {
        Some(from)
    } else {
        shelf_place(shelves, head, from + 1)
    }
}

/// A feed in the making: its shelves, and the keys of the cards on them.
pub struct FeedView {
    pub shelves: Seq<CatalogShelfView>,
    pub seen: Set<Seq<char>>,
}

/// The feed with one more shelf: its new cards go to the shelf with the
/// same head, if there is one.
pub open spec fn with_shelf(feed: FeedView, shelf: CatalogShelfView) -> FeedView {
    let items = fresh_cards(shelf.items, feed.seen);
    FeedView {
        shelves: match shelf_place(feed.shelves, shelf, 0) {
            Some(i) => feed.shelves.update(
                i,
                CatalogShelfView { items: feed.shelves[i].items + items, ..feed.shelves[i] },
            ),
            None => feed.shelves.push(CatalogShelfView { items, ..shelf }),
        },
        seen: feed.seen.union(card_keys(shelf.items)),
    }
}

pub open spec fn with_shelves(feed: FeedView, shelves: Seq<CatalogShelfView>) -> FeedView
    decreases shelves.len(),
{
    if shelves.len() == 0 {
        feed
    } else {
        with_shelf(with_shelves(feed, shelves.drop_last()), shelves.last())
    }
}

pub open spec fn with_pages(feed: FeedView, pages: Seq<HomePageView>) -> FeedView
    decreases pages.len(),
{
    if pages.len() == 0 {
        feed
    } else {
        with_shelves(with_pages(feed, pages.drop_last()), pages.last().shelves)
    }
}

pub open spec fn empty_feed() -> FeedView {
    FeedView { shelves: Seq::empty(), seen: Set::empty() }
}

/// The first continuation among the pages.
pub open spec fn first_next(pages: Seq<HomePageView>) -> Option<Seq<char>>
    decreases pages.len(),
{
    if pages.len() == 0 {
        None
    } else {
        match first_next(pages.drop_last()) {
            Some(n) => Some(n),
            None => pages.last().next,
        }
    }
}

/// The pages as one.
pub open spec fn merged_pages(pages: Seq<HomePageView>) -> HomePageView {
    HomePageView { shelves: with_pages(empty_feed(), pages).shelves, next: first_next(pages) }
}

/// The texts of a list, as a set.
pub open spec fn text_set(v: Seq<String>) -> Set<Seq<char>>
    decreases v.len(),
{
    if v.len() == 0 {
        Set::empty()
    } else {
        text_set(v.drop_last()).insert(v.last()@)
    }
}

proof fn lemma_text_set(v: Seq<String>, s: Seq<char>)
    ensures
        text_set(v).contains(s) <==> exists|i: int| 0 <= i < v.len() && (#[trigger] v[i])@ == s,
    decreases v.len(),
{
    if v.len() > 0 {
        let w = v.drop_last();
        lemma_text_set(w, s);
        if exists|i: int| 0 <= i < v.len() && (#[trigger] v[i])@ == s {
            let i = choose|i: int| 0 <= i < v.len() && (#[trigger] v[i])@ == s;
            if i < w.len() {
                assert(w[i]@ == s);
            }
        }
        if exists|i: int| 0 <= i < w.len() && (#[trigger] w[i])@ == s {
            let i = choose|i: int| 0 <= i < w.len() && (#[trigger] w[i])@ == s;
            assert(v[i]@ == s);
        }
        if v.last()@ == s {
            assert(v[v.len() - 1]@ == s);
        }
    }
}

fn list_contains(v: &Vec<String>, s: &str) -> (r: bool)
    ensures
        r == text_set(v@).contains(s@),
{
    let mut i: usize = 0;
    proof {
        lemma_text_set(v@, s@);
    }
    while i < v.len()
        invariant
            i <= v@.len(),
            forall|k: int| 0 <= k < i ==> (#[trigger] v@[k])@ != s@,
            text_set(v@).contains(s@) <==> exists|i: int|
                0 <= i < v@.len() && (#[trigger] v@[i])@ == s@,
        decreases v@.len() - i,
    {
        if v[i].as_str().eq(s) {
            assert(v@[i as int]@ == s@);
            return true;
        }
        i += 1;
    }
    false
}

/// Keeps the cards that were not seen before, and takes note of them.
fn keep_fresh(cards: Vec<SearchResult>, seen: &mut Vec<String>) -> (r: Vec<SearchResult>)
    ensures
        result_views(r@) == fresh_cards(result_views(cards@), text_set(old(seen)@)),
        text_set(final(seen)@) == text_set(old(seen)@).union(card_keys(result_views(cards@))),
{
    let ghost all = result_views(cards@);
    let ghost before = text_set(seen@);
    let mut out: Vec<SearchResult> = Vec::new();
    let mut i: usize = 0;
    assert(all.subrange(0, 0) =~= Seq::empty());
    assert(result_views(out@) =~= Seq::empty());
    assert(text_set(seen@) =~= before.union(card_keys(all.subrange(0, 0))));
    while i < cards.len()
        invariant
            i <= cards@.len(),
            all == result_views(cards@),
            result_views(out@) == fresh_cards(all.subrange(0, i as int), before),
            text_set(seen@) == before.union(card_keys(all.subrange(0, i as int))),
        decreases cards@.len() - i,
    {
        let ghost upto = all.subrange(0, i + 1);
        assert(upto.drop_last() =~= all.subrange(0, i as int));
        assert(upto.last() == cards@[i as int]@);
        let key = search_result_key(&cards[i]);
        let ghost had = result_views(out@);
        if !list_contains(seen, key.as_str()) {
            let ghost sofar = seen@;
            let ghost name = key@;
            out.push(cards[i].clone());
            seen.push(key);
            assert(seen@.drop_last() =~= sofar);
            assert(result_views(out@) =~= had.push(cards@[i as int]@));
        }
        assert(text_set(seen@) =~= before.union(card_keys(upto)));
        i += 1;
    }
    assert(all.subrange(0, i as int) =~= all);
    out
}

fn shelf_index(shelves: &Vec<CatalogShelf>, title: &String, subtitle: &Option<String>) -> (r: Option<
    usize,
>)
    ensures
        forall|head: CatalogShelfView|
            head.title == title@ && head.subtitle == opt_text(*subtitle) ==> #[trigger] shelf_place(
                shelf_views(shelves@),
                head,
                0,
            ) == match r {
                Some(i) => Some(i as int),
                None => None,
            },
        r matches Some(i) ==> i < shelves@.len(),
{
    let ghost views = shelf_views(shelves@);
    let mut i: usize = 0;
    while i < shelves.len()
        invariant
            i <= shelves@.len(),
            views == shelf_views(shelves@),
            forall|head: CatalogShelfView|
                head.title == title@ && head.subtitle == opt_text(*subtitle)
                    ==> #[trigger] shelf_place(views, head, 0) == shelf_place(
                    views,
                    head,
                    i as int,
                ),
        decreases shelves@.len() - i,
    {
        assert(views[i as int] == shelves@[i as int]@);
        if shelves[i].title.as_str().eq(title.as_str()) && opt_eq(&shelves[i].subtitle, subtitle) {
            return Some(i);
        }
        i += 1;
    }
    None
}

/// Puts a shelf into the feed.
fn add_shelf(shelves: &mut Vec<CatalogShelf>, seen: &mut Vec<String>, shelf: CatalogShelf)
    ensures
        ({
            let before = FeedView {
                shelves: shelf_views(old(shelves)@),
                seen: text_set(old(seen)@),
            };
            let after = with_shelf(before, shelf@);
            &&& shelf_views(final(shelves)@) == after.shelves
            &&& text_set(final(seen)@) == after.seen
        }),
{
    let ghost before = shelf_views(shelves@);
    let ghost whole = shelf@;
    let CatalogShelf { title, subtitle, items } = shelf;
    let ghost fresh = fresh_cards(result_views(items@), text_set(seen@));
    let items = keep_fresh(items, seen);
    match shelf_index(shelves, &title, &subtitle) {
        Some(i) => {
            assert(shelf_place(before, whole, 0) == Some(i as int));
            let mut items = items;
            let mut existing = CatalogShelf { title, subtitle, items: Vec::new() };
            let ghost old_view = shelves@[i as int]@;
            std::mem::swap(&mut shelves[i], &mut existing);
            let ghost taken = existing@;
            let ghost old_items = existing.items@;
            existing.items.append(&mut items);
            assert(result_views(existing.items@) =~= result_views(old_items) + fresh);
            let ghost joined = existing@;
            std::mem::swap(&mut shelves[i], &mut existing);
            assert(before[i as int] == old_view);
            assert(shelf_views(shelves@) =~= before.update(
                i as int,
                CatalogShelfView {
                    items: before[i as int].items + fresh,
                    ..before[i as int]
                },
            ));
        },
        None => {
            assert(shelf_place(before, whole, 0) is None);
            let made = CatalogShelf { title, subtitle, items };
            let ghost mv = made@;
            shelves.push(made);
            assert(shelf_views(shelves@) =~= before.push(mv));
        },
    }
}

/// Merges pages: shelves with the same head become one, and of cards with
/// the same key the first stays. The pages come in a fixed order, so the
/// outcome is fixed too.
pub fn merge_home_pages(pages: Vec<HomePage>) -> (r: HomePage)
    ensures
        r@ == merged_pages(page_views(pages@)),
{
    let ghost all = page_views(pages@);
    let mut shelves: Vec<CatalogShelf> = Vec::new();
    let mut seen: Vec<String> = Vec::new();
    let mut next: Option<String> = None;
    assert(shelf_views(shelves@) =~= Seq::empty());
    assert(all.subrange(0, 0) =~= Seq::empty());
    let ghost total = pages@;
    for page in it: pages
        invariant
            it.seq() == total,
            all == page_views(total),
            shelf_views(shelves@) == with_pages(
                empty_feed(),
                all.subrange(0, it.index() as int),
            ).shelves,
            text_set(seen@) == with_pages(empty_feed(), all.subrange(0, it.index() as int)).seen,
            opt_text(next) == first_next(all.subrange(0, it.index() as int)),
    {
        let ghost done = it.index() as int;
        assert(all[done] == page@);
        assert(all.subrange(0, done + 1).drop_last() =~= all.subrange(0, done));
        let ghost start = with_pages(empty_feed(), all.subrange(0, done));
        let HomePage { shelves: list, next: page_next } = page;
        if next.is_none() {
            next = page_next;
        }
        let ghost lv = shelf_views(list@);
        let ghost whole = list@;
        assert(lv.subrange(0, 0) =~= Seq::empty());
        for shelf in put: list
            invariant
                put.seq() == whole,
                lv == shelf_views(whole),
                shelf_views(shelves@) == with_shelves(
                    start,
                    lv.subrange(0, put.index() as int),
                ).shelves,
                text_set(seen@) == with_shelves(start, lv.subrange(0, put.index() as int)).seen,
        {
            let ghost k = put.index() as int;
            assert(lv[k] == shelf@);
            assert(lv.subrange(0, k + 1).drop_last() =~= lv.subrange(0, k));
            add_shelf(&mut shelves, &mut seen, shelf);
        }
        assert(lv.subrange(0, lv.len() as int) =~= lv);
    }
    assert(all.subrange(0, all.len() as int) =~= all);
    HomePage { shelves, next }
}

/// Whether a place of the feed holds a card.
pub open spec fn holds_card(feed: FeedView, shelf: int, card: int) -> bool {
    0 <= shelf < feed.shelves.len() && 0 <= card < feed.shelves[shelf].items.len()
}

/// The key of the card at a place.
pub open spec fn key_at(feed: FeedView, shelf: int, card: int) -> Seq<char> {
    card_key(feed.shelves[shelf].items[card])
}

/// No card stands twice, no head stands twice, and the keys on record are
/// those of the cards.
pub open spec fn feed_ok(feed: FeedView) -> bool {
    &&& forall|i: int, a: int|
        holds_card(feed, i, a) ==> feed.seen.contains(#[trigger] key_at(feed, i, a))
    &&& forall|k: Seq<char>| #[trigger]
        feed.seen.contains(k) ==> exists|i: int, a: int|
            holds_card(feed, i, a) && #[trigger] key_at(feed, i, a) == k
    &&& forall|i: int, a: int, j: int, b: int|
        #![trigger key_at(feed, i, a), key_at(feed, j, b)]
        holds_card(feed, i, a) && holds_card(feed, j, b) && key_at(feed, i, a) == key_at(
            feed,
            j,
            b,
        ) ==> i == j && a == b
    &&& forall|i: int, j: int|
        0 <= i < j < feed.shelves.len() ==> !same_head(
            #[trigger] feed.shelves[i],
            #[trigger] feed.shelves[j],
        )
}

proof fn lemma_card_keys(cards: Seq<SearchResultView>, k: Seq<char>)
    ensures
        card_keys(cards).contains(k) <==> exists|i: int|
            0 <= i < cards.len() && card_key(#[trigger] cards[i]) == k,
    decreases cards.len(),
{
    if cards.len() > 0 {
        let before = cards.drop_last();
        lemma_card_keys(before, k);
        if exists|i: int| 0 <= i < cards.len() && card_key(#[trigger] cards[i]) == k {
            let i = choose|i: int| 0 <= i < cards.len() && card_key(#[trigger] cards[i]) == k;
            if i < before.len() {
                assert(card_key(before[i]) == k);
            }
        }
        if exists|i: int| 0 <= i < before.len() && card_key(#[trigger] before[i]) == k {
            let i = choose|i: int| 0 <= i < before.len() && card_key(#[trigger] before[i]) == k;
            assert(card_key(cards[i]) == k);
        }
        if card_key(cards.last()) == k {
            assert(card_key(cards[cards.len() - 1]) == k);
        }
    }
}

proof fn lemma_fresh_cards(cards: Seq<SearchResultView>, seen: Set<Seq<char>>)
    ensures
        forall|a: int|
            0 <= a < fresh_cards(cards, seen).len() ==> !seen.contains(
                card_key(#[trigger] fresh_cards(cards, seen)[a]),
            ) && card_keys(cards).contains(card_key(fresh_cards(cards, seen)[a])),
        forall|a: int, b: int|
            0 <= a < b < fresh_cards(cards, seen).len() ==> card_key(
                #[trigger] fresh_cards(cards, seen)[a],
            ) != card_key(#[trigger] fresh_cards(cards, seen)[b]),
        forall|k: Seq<char>| #[trigger]
            card_keys(cards).contains(k) && !seen.contains(k) ==> exists|a: int|
                0 <= a < fresh_cards(cards, seen).len() && card_key(
                    #[trigger] fresh_cards(cards, seen)[a],
                ) == k,
    decreases cards.len(),
{
    if cards.len() > 0 {
        let before = cards.drop_last();
        lemma_fresh_cards(before, seen);
        let kept = fresh_cards(before, seen);
        let all = fresh_cards(cards, seen);
        let key = card_key(cards.last());
        assert forall|a: int| 0 <= a < all.len() implies !seen.contains(
            card_key(#[trigger] all[a]),
        ) && card_keys(cards).contains(card_key(all[a])) by {
            if a < kept.len() {
                assert(all[a] == kept[a]);
            }
        }
        assert forall|a: int, b: int| 0 <= a < b < all.len() implies card_key(
            #[trigger] all[a],
        ) != card_key(#[trigger] all[b]) by {
            assert(all[a] == kept[a]);
            if b < kept.len() {
                assert(all[b] == kept[b]);
            } else {
                assert(card_keys(before).contains(card_key(kept[a])));
            }
        }
        assert forall|k: Seq<char>| #[trigger]
            card_keys(cards).contains(k) && !seen.contains(k) implies exists|a: int|
            0 <= a < all.len() && card_key(#[trigger] all[a]) == k by {
            if card_keys(before).contains(k) {
                let a = choose|a: int| 0 <= a < kept.len() && card_key(#[trigger] kept[a]) == k;
                assert(card_key(all[a]) == k);
            } else {
                assert(k == key);
                assert(card_key(all[all.len() - 1]) == k);
            }
        }
    }
}

proof fn lemma_shelf_place(shelves: Seq<CatalogShelfView>, head: CatalogShelfView, from: int)
    requires
        0 <= from,
    ensures
        match shelf_place(shelves, head, from) {
            Some(i) => from <= i < shelves.len() && same_head(shelves[i], head),
            None => forall|k: int|
                from <= k < shelves.len() ==> !same_head(#[trigger] shelves[k], head),
        },
    decreases shelves.len() - from,
{
    if from < shelves.len() && !same_head(shelves[from], head) {
        lemma_shelf_place(shelves, head, from + 1);
    }
}

proof fn lemma_shelf_keeps_the_feed_ok(feed: FeedView, shelf: CatalogShelfView)
    requires
        feed_ok(feed),
    ensures
        feed_ok(with_shelf(feed, shelf)),
{
    let items = fresh_cards(shelf.items, feed.seen);
    let next = with_shelf(feed, shelf);
    lemma_fresh_cards(shelf.items, feed.seen);
    lemma_shelf_place(feed.shelves, shelf, 0);
    let at = match shelf_place(feed.shelves, shelf, 0) {
        Some(i) => i,
        None => feed.shelves.len() as int,
    };
    let base = if at < feed.shelves.len() {
        feed.shelves[at].items.len() as int
    } else {
        0
    };
    // A place of the new feed is one of the old feed, or one of the new cards.
    assert forall|i: int, a: int| holds_card(next, i, a) implies (if i == at && a >= base {
        next.shelves[i].items[a] == items[a - base] && 0 <= a - base < items.len()
    } else {
        holds_card(feed, i, a) && key_at(next, i, a) == key_at(feed, i, a)
    }) by {}
    assert forall|i: int, a: int| holds_card(next, i, a) implies next.seen.contains(
        #[trigger] key_at(next, i, a),
    ) by {
        if i == at && a >= base {
            assert(card_keys(shelf.items).contains(card_key(items[a - base])));
        } else {
            assert(feed.seen.contains(key_at(feed, i, a)));
        }
    }
    assert forall|k: Seq<char>| #[trigger] next.seen.contains(k) implies exists|i: int, a: int|
        holds_card(next, i, a) && #[trigger] key_at(next, i, a) == k by {
        if feed.seen.contains(k) {
            let (i, a) = choose|i: int, a: int|
                holds_card(feed, i, a) && #[trigger] key_at(feed, i, a) == k;
            assert(holds_card(next, i, a) && key_at(next, i, a) == k);
        } else {
            assert(card_keys(shelf.items).contains(k));
            let a = choose|a: int| 0 <= a < items.len() && card_key(#[trigger] items[a]) == k;
            assert(holds_card(next, at, base + a));
            assert(key_at(next, at, base + a) == k);
        }
    }
    assert forall|i: int, a: int, j: int, b: int|
        #![trigger key_at(next, i, a), key_at(next, j, b)]
        holds_card(next, i, a) && holds_card(next, j, b) && key_at(next, i, a) == key_at(
            next,
            j,
            b,
        ) implies i == j && a == b by {
        let na = i == at && a >= base;
        let nb = j == at && b >= base;
        if na && nb {
            if a < b {
                assert(card_key(items[a - base]) != card_key(items[b - base]));
            } else if b < a {
                assert(card_key(items[b - base]) != card_key(items[a - base]));
            }
        } else if na {
            assert(feed.seen.contains(key_at(feed, j, b)));
            assert(!feed.seen.contains(card_key(items[a - base])));
        } else if nb {
            assert(feed.seen.contains(key_at(feed, i, a)));
            assert(!feed.seen.contains(card_key(items[b - base])));
        } else {
            assert(key_at(feed, i, a) == key_at(feed, j, b));
        }
    }
    assert forall|i: int, j: int| 0 <= i < j < next.shelves.len() implies !same_head(
        #[trigger] next.shelves[i],
        #[trigger] next.shelves[j],
    ) by {
        if j < feed.shelves.len() {
            assert(!same_head(feed.shelves[i], feed.shelves[j]));
        } else {
            assert(!same_head(feed.shelves[i], shelf));
        }
    }
}

proof fn lemma_shelves_keep_the_feed_ok(feed: FeedView, shelves: Seq<CatalogShelfView>)
    requires
        feed_ok(feed),
    ensures
        feed_ok(with_shelves(feed, shelves)),
    decreases shelves.len(),
{
    if shelves.len() > 0 {
        lemma_shelves_keep_the_feed_ok(feed, shelves.drop_last());
        lemma_shelf_keeps_the_feed_ok(
            with_shelves(feed, shelves.drop_last()),
            shelves.last(),
        );
    }
}

/// However pages are merged, no card stands twice in the feed, no two
/// shelves have the same head, and every card of every page is there.
pub proof fn lemma_merged_feed_has_no_duplicates(pages: Seq<HomePageView>)
    ensures
        feed_ok(with_pages(empty_feed(), pages)),
        forall|p: int, i: int, a: int|
            0 <= p < pages.len() && 0 <= i < pages[p].shelves.len() && 0 <= a
                < pages[p].shelves[i].items.len() ==> with_pages(
                empty_feed(),
                pages,
            ).seen.contains(card_key(#[trigger] pages[p].shelves[i].items[a])),
    decreases pages.len(),
{
    if pages.len() > 0 {
        let before = pages.drop_last();
        lemma_merged_feed_has_no_duplicates(before);
        let start = with_pages(empty_feed(), before);
        lemma_shelves_keep_the_feed_ok(start, pages.last().shelves);
        assert forall|p: int, i: int, a: int|
            0 <= p < pages.len() && 0 <= i < pages[p].shelves.len() && 0 <= a
                < pages[p].shelves[i].items.len() implies with_pages(
            empty_feed(),
            pages,
        ).seen.contains(card_key(#[trigger] pages[p].shelves[i].items[a])) by {
            lemma_shelves_see_their_cards(
                start,
                pages.last().shelves,
                card_key(pages[p].shelves[i].items[a]),
            );
            if p < before.len() {
                assert(before[p].shelves[i].items[a] == pages[p].shelves[i].items[a]);
            } else {
                lemma_card_keys(
                    pages[p].shelves[i].items,
                    card_key(pages[p].shelves[i].items[a]),
                );
                assert(card_keys(pages.last().shelves[i].items).contains(
                    card_key(pages[p].shelves[i].items[a]),
                ));
            }
        }
    }
}

proof fn lemma_shelves_see_their_cards(
    feed: FeedView,
    shelves: Seq<CatalogShelfView>,
    k: Seq<char>,
)
    ensures
        with_shelves(feed, shelves).seen.contains(k) <==> feed.seen.contains(k) || exists|i: int|
            0 <= i < shelves.len() && card_keys((#[trigger] shelves[i]).items).contains(k),
    decreases shelves.len(),
{
    if shelves.len() > 0 {
        let before = shelves.drop_last();
        lemma_shelves_see_their_cards(feed, before, k);
        if exists|i: int| 0 <= i < before.len() && card_keys((#[trigger] before[i]).items).contains(
            k,
        ) {
            let i = choose|i: int|
                0 <= i < before.len() && card_keys((#[trigger] before[i]).items).contains(k);
            assert(card_keys(shelves[i].items).contains(k));
        }
        if card_keys(shelves.last().items).contains(k) {
            assert(card_keys(shelves[shelves.len() - 1].items).contains(k));
        }
        if exists|i: int|
            0 <= i < shelves.len() && card_keys((#[trigger] shelves[i]).items).contains(k) {
            let i = choose|i: int|
                0 <= i < shelves.len() && card_keys((#[trigger] shelves[i]).items).contains(k);
            if i < before.len() {
                assert(card_keys(before[i].items).contains(k));
            }
        }
    }
}

impl Clone for HomePage {
    fn clone(&self) -> (r: Self)
        ensures
            r@ == self@,
    {
        let mut shelves: Vec<CatalogShelf> = Vec::new();
        let mut i: usize = 0;
        while i < self.shelves.len()
            invariant
                i <= self.shelves@.len(),
                shelf_views(shelves@) == shelf_views(self.shelves@).subrange(0, i as int),
            decreases self.shelves@.len() - i,
        {
            let ghost before = shelf_views(shelves@);
            shelves.push(self.shelves[i].clone());
            i += 1;
            assert(shelf_views(shelves@) =~= before.push(self.shelves@[i - 1]@));
            assert(shelf_views(shelves@) =~= shelf_views(self.shelves@).subrange(0, i as int));
        }
        assert(shelf_views(self.shelves@).subrange(0, i as int) =~= shelf_views(self.shelves@));
        HomePage { shelves, next: clone_opt(&self.next) }
    }
}

/// All cards of some shelves, in order.
pub open spec fn shelf_cards(shelves: Seq<CatalogShelfView>) -> Seq<SearchResultView>
    decreases shelves.len(),
{
    if shelves.len() == 0 {
        Seq::empty()
    } else {
        shelf_cards(shelves.drop_last()) + shelves.last().items
    }
}

/// All cards of a page, in order.
pub fn cards_of(page: &HomePage) -> (r: Vec<SearchResult>)
    ensures
        result_views(r@) == shelf_cards(page@.shelves),
{
    let ghost all = page@.shelves;
    let mut out: Vec<SearchResult> = Vec::new();
    let mut i: usize = 0;
    assert(all.subrange(0, 0) =~= Seq::empty());
    assert(result_views(out@) =~= Seq::empty());
    while i < page.shelves.len()
        invariant
            i <= page.shelves@.len(),
            all == page@.shelves,
            result_views(out@) == shelf_cards(all.subrange(0, i as int)),
        decreases page.shelves@.len() - i,
    {
        assert(all.subrange(0, i + 1).drop_last() =~= all.subrange(0, i as int));
        assert(all[i as int] == page.shelves@[i as int]@);
        let ghost had = out@;
        let mut more = crate::model::clone_results(&page.shelves[i].items);
        let ghost mv = more@;
        out.append(&mut more);
        assert(result_views(out@) =~= result_views(had) + result_views(mv));
        i += 1;
    }
    assert(all.subrange(0, i as int) =~= all);
    out
}

/// How long the feed counts as fresh, in seconds.
pub const HOME_TTL_SECS: u128 = 600;

/// The way to the next page: the name that clients know, and the source and
/// the source's own token that it stands for. Tokens stay inside: without
/// their source they mean nothing.
struct Cursor {
    name: String,
    owner: String,
    raw: String,
}

#[verifier::ext_equal]
pub struct CursorView {
    pub name: Seq<char>,
    pub owner: Seq<char>,
    pub raw: Seq<char>,
}

/// A feed that was read, and when.
struct HomeCache {
    key: String,
    at: u128,
    page: HomePage,
    cursor: Option<Cursor>,
    next_cursor: u64,
}

#[verifier::ext_equal]
pub struct HomeCacheView {
    pub key: Seq<char>,
    pub at: u128,
    pub page: HomePageView,
    pub cursor: Option<CursorView>,
    pub next_cursor: u64,
}

/// The daemon's memory of the home feed.
pub struct HomeFeed {
    cache: Option<HomeCache>,
}

impl View for HomeFeed {
    type V = Option<HomeCacheView>;

    closed spec fn view(&self) -> Option<HomeCacheView> {
        match self.cache {
            Some(c) => Some(
                HomeCacheView {
                    key: c.key@,
                    at: c.at,
                    page: c.page@,
                    cursor: match c.cursor {
                        Some(k) => Some(
                            CursorView { name: k.name@, owner: k.owner@, raw: k.raw@ },
                        ),
                        None => None,
                    },
                    next_cursor: c.next_cursor,
                },
            ),
            None => None,
        }
    }
}

/// What the cut of a request is remembered under.
pub open spec fn feed_key(provider: Option<Seq<char>>) -> Seq<char> {
    match provider {
        Some(name) => name,
        None => "all"@,
    }
}

/// The seconds from one moment of the steady clock to another.
pub open spec fn seconds_since(at: u128, now: u128) -> int {
    if now <= at {
        0
    } else {
        (now - at) / 1_000_000_000
    }
}

/// The feed that can be shown without asking anyone.
pub open spec fn fresh_feed(
    feed: Option<HomeCacheView>,
    provider: Option<Seq<char>>,
    now: u128,
) -> Option<HomePageView> {
    match feed {
        Some(c) => if c.key == feed_key(provider) && seconds_since(c.at, now) < HOME_TTL_SECS {
            Some(c.page)
        } else {
            None
        },
        None => None,
    }
}

/// An optional page by view.
pub open spec fn opt_page(p: Option<HomePage>) -> Option<HomePageView> {
    match p {
        Some(p) => Some(p@),
        None => None,
    }
}

/// A feed that was read and merged, with the token of what comes after it
/// and the source that the token belongs to.
#[derive(Debug, PartialEq, Eq)]
pub struct HomeDraft {
    pub page: HomePage,
    pub continuation: Option<(String, String)>,
}

/// A source that could not be read.
#[derive(Debug, PartialEq, Eq)]
pub struct HomeFailure {
    pub provider: String,
    pub error: ProviderError,
}

/// What a source answered, by view.
pub open spec fn answer_view(a: (String, Result<HomePage, ProviderError>)) -> (
    Seq<char>,
    Result<HomePageView, ProviderErrorView>,
) {
    (
        a.0@,
        match a.1 {
            Ok(p) => Ok(p@),
            Err(e) => Err(e@),
        },
    )
}

pub open spec fn answer_views(v: Seq<(String, Result<HomePage, ProviderError>)>) -> Seq<
    (Seq<char>, Result<HomePageView, ProviderErrorView>),
> {
    v.map_values(|a: (String, Result<HomePage, ProviderError>)| answer_view(a))
}

/// Whether an answer spoils the feed. A source without a feed does not.
pub open spec fn spoils(a: (Seq<char>, Result<HomePageView, ProviderErrorView>)) -> bool {
    a.1 matches Err(e) && !(e is Unsupported)
}

/// The first token among the answers, with its source.
pub open spec fn first_token(
    answers: Seq<(Seq<char>, Result<HomePageView, ProviderErrorView>)>,
) -> Option<(Seq<char>, Seq<char>)>
    decreases answers.len(),
{
    if answers.len() == 0 {
        None
    } else {
        match first_token(answers.drop_last()) {
            Some(t) => Some(t),
            None => match answers.last().1 {
                Ok(page) => match page.next {
                    Some(raw) => Some((answers.last().0, raw)),
                    None => None,
                },
                Err(_) => None,
            },
        }
    }
}

/// The pages that were answered, without their tokens.
pub open spec fn answered_pages(
    answers: Seq<(Seq<char>, Result<HomePageView, ProviderErrorView>)>,
) -> Seq<HomePageView>
    decreases answers.len(),
{
    if answers.len() == 0 {
        Seq::empty()
    } else {
        let before = answered_pages(answers.drop_last());
        match answers.last().1 {
            Ok(page) => before.push(HomePageView { next: None, ..page }),
            Err(_) => before,
        }
    }
}

pub open spec fn opt_pair(o: Option<(String, String)>) -> Option<(Seq<char>, Seq<char>)> {
    match o {
        Some(p) => Some((p.0@, p.1@)),
        None => None,
    }
}

/// Merges what the sources answered. One that fails spoils the whole feed:
/// an honest error is better than a part that looks like the whole.
pub fn collect_home(answers: Vec<(String, Result<HomePage, ProviderError>)>) -> (r: Result<
    HomeDraft,
    HomeFailure,
>)
    ensures
        match r {
            Ok(draft) => {
                &&& forall|k: int|
                    0 <= k < answers@.len() ==> !spoils(#[trigger] answer_views(answers@)[k])
                &&& draft.page@ == merged_pages(answered_pages(answer_views(answers@)))
                &&& opt_pair(draft.continuation) == first_token(answer_views(answers@))
            },
            Err(f) => exists|k: int|
                0 <= k < answers@.len() && spoils(#[trigger] answer_views(answers@)[k])
                    && f.provider@ == answer_views(answers@)[k].0 && Err::<
                    HomePageView,
                    ProviderErrorView,
                >(f.error@) == answer_views(answers@)[k].1 && (forall|j: int|
                    0 <= j < k ==> !spoils(#[trigger] answer_views(answers@)[j])),
        },
{
    let ghost all = answer_views(answers@);
    let ghost whole = answers@;
    let mut pages: Vec<HomePage> = Vec::new();
    let mut continuation: Option<(String, String)> = None;
    assert(all.subrange(0, 0) =~= Seq::empty());
    assert(page_views(pages@) =~= Seq::empty());
    for answer in it: answers
        invariant
            it.seq() == whole,
            all == answer_views(whole),
            forall|k: int| 0 <= k < it.index() ==> !spoils(#[trigger] all[k]),
            page_views(pages@) == answered_pages(all.subrange(0, it.index() as int)),
            opt_pair(continuation) == first_token(all.subrange(0, it.index() as int)),
    {
        let ghost done = it.index() as int;
        assert(all[done] == answer_view(answer));
        assert(all.subrange(0, done + 1).drop_last() =~= all.subrange(0, done));
        let (id, result) = answer;
        match result {
            Ok(page) => {
                let HomePage { shelves, next } = page;
                if continuation.is_none() {
                    if let Some(raw) = next {
                        continuation = Some((id, raw));
                    }
                }
                let ghost had = page_views(pages@);
                pages.push(HomePage { shelves, next: None });
                assert(page_views(pages@) =~= had.push(
                    HomePageView { next: None, ..all[done].1->Ok_0 },
                ));
            },
            Err(error) => {
                let unsupported: bool = matches!(error, ProviderError::Unsupported { .. });
                if !unsupported {
                    assert(spoils(all[done]));
                    return Err(HomeFailure { provider: id, error });
                }
            },
        }
    }
    assert(all.subrange(0, all.len() as int) =~= all);
    let page = merge_home_pages(pages);
    Ok(HomeDraft { page, continuation })
}

/// A cursor's name.
pub open spec fn cursor_name(n: u64) -> Seq<char> {
    "h"@ + decimal_text(n as nat)
}

/// The page as clients get it: with the name of its cursor.
pub open spec fn named_page(
    page: HomePageView,
    continuation: Option<(Seq<char>, Seq<char>)>,
    number: u64,
) -> HomePageView {
    HomePageView {
        next: match continuation {
            Some(_) => Some(cursor_name(number)),
            None => None,
        },
        ..page
    }
}

pub open spec fn named_cursor(
    continuation: Option<(Seq<char>, Seq<char>)>,
    number: u64,
) -> Option<CursorView> {
    match continuation {
        Some((owner, raw)) => Some(CursorView { name: cursor_name(number), owner, raw }),
        None => None,
    }
}

/// The number that the next cursor gets.
pub open spec fn coming_number(feed: Option<HomeCacheView>) -> u64 {
    match feed {
        Some(c) => c.next_cursor,
        None => 0,
    }
}

pub open spec fn number_after(continuation: Option<(Seq<char>, Seq<char>)>, number: u64) -> u64 {
    match continuation {
        Some(_) => next_number(number),
        None => number,
    }
}

/// What the feed is after a fresh one was read.
pub open spec fn feed_after(
    feed: Option<HomeCacheView>,
    provider: Option<Seq<char>>,
    page: HomePageView,
    continuation: Option<(Seq<char>, Seq<char>)>,
    now: u128,
) -> HomeCacheView {
    let number = coming_number(feed);
    HomeCacheView {
        key: feed_key(provider),
        at: now,
        page: named_page(page, continuation, number),
        cursor: named_cursor(continuation, number),
        next_cursor: number_after(continuation, number),
    }
}

pub open spec fn stale_cursor(cursor: Seq<char>) -> Seq<char> {
    "курсор "@ + cursor + " протух — запросите домашнюю ленту заново"@
}

pub open spec fn foreign_cursor(
    cursor: Seq<char>,
    owner: Seq<char>,
    asked: Seq<char>,
) -> Seq<char> {
    "курсор "@ + cursor + " принадлежит провайдеру "@ + owner + ", а не "@ + asked
}

/// What a cursor leads to: a source and its token.
pub open spec fn cursor_target(
    feed: Option<HomeCacheView>,
    provider: Option<Seq<char>>,
    cursor: Seq<char>,
) -> Result<(Seq<char>, Seq<char>), Seq<char>> {
    match feed {
        Some(c) => match c.cursor {
            Some(k) => if k.name != cursor {
                Err(stale_cursor(cursor))
            } else {
                match provider {
                    Some(asked) => if asked != k.owner {
                        Err(foreign_cursor(cursor, k.owner, asked))
                    } else {
                        Ok((k.owner, k.raw))
                    },
                    None => Ok((k.owner, k.raw)),
                }
            },
            None => Err(stale_cursor(cursor)),
        },
        None => Err(stale_cursor(cursor)),
    }
}

pub open spec fn pair_result(r: Result<(String, String), String>) -> Result<
    (Seq<char>, Seq<char>),
    Seq<char>,
> {
    match r {
        Ok(p) => Ok((p.0@, p.1@)),
        Err(e) => Err(e@),
    }
}

/// An optional name by view.
pub open spec fn opt_str(o: Option<&str>) -> Option<Seq<char>> {
    match o {
        Some(s) => Some(s@),
        None => None,
    }
}

impl HomeFeed {
    pub fn new() -> (r: Self)
        ensures
            r@ is None,
    {
        HomeFeed { cache: None }
    }

    /// The feed that can be shown without asking anyone: the same cut, read
    /// less than ten minutes ago.
    pub fn lookup(&self, provider: Option<&str>, now: u128) -> (r: Option<HomePage>)
        ensures
            opt_page(r) == fresh_feed(self@, opt_str(provider), now),
    {
        match &self.cache {
            Some(c) => {
                let key: &str = match provider {
                    Some(name) => name,
                    None => "all",
                };
                let elapsed: u128 = if now <= c.at {
                    0
                } else {
                    (now - c.at) / 1_000_000_000
                };
                if c.key.as_str().eq(key) && elapsed < HOME_TTL_SECS {
                    Some(c.page.clone())
                } else {
                    None
                }
            },
            None => None,
        }
    }

    /// Takes over a feed that was read. Its cursor gets a name of its own:
    /// names go on from feed to feed, so that an old one fits nothing new.
    pub fn store(&mut self, provider: Option<&str>, draft: HomeDraft, now: u128) -> (r: HomePage)
        ensures
            final(self)@ == Some(
                feed_after(
                    old(self)@,
                    opt_str(provider),
                    draft.page@,
                    opt_pair(draft.continuation),
                    now,
                ),
            ),
            r@ == final(self)@->0.page,
    {
        let number: u64 = match &self.cache {
            Some(c) => c.next_cursor,
            None => 0,
        };
        let key: String = match provider {
            Some(name) => name.to_owned(),
            None => "all".to_owned(),
        };
        let HomeDraft { page, continuation } = draft;
        let mut page = page;
        let mut next_cursor: u64 = number;
        let cursor: Option<Cursor> = match continuation {
            Some((owner, raw)) => {
                let name = concat2("h", decimal(number).as_str());
                next_cursor = if number == u64::MAX {
                    0
                } else {
                    number + 1
                };
                page.next = Some(name.clone());
                Some(Cursor { name, owner, raw })
            },
            None => {
                page.next = None;
                None
            },
        };
        let shown = page.clone();
        self.cache = Some(HomeCache { key, at: now, page, cursor, next_cursor });
        shown
    }

    /// What a cursor leads to.
    pub fn more_target(&self, provider: Option<&str>, cursor: &str) -> (r: Result<
        (String, String),
        String,
    >)
        ensures
            pair_result(r) == cursor_target(self@, opt_str(provider), cursor@),
    {
        if let Some(c) = &self.cache {
            if let Some(k) = &c.cursor {
                if k.name.as_str().eq(cursor) {
                    if let Some(asked) = provider {
                        if !asked.eq(k.owner.as_str()) {
                            let head = concat3("курсор ", cursor, " принадлежит провайдеру ");
                            let tail = concat3(k.owner.as_str(), ", а не ", asked);
                            let text = concat2(head.as_str(), tail.as_str());
                            assert(text@ =~= foreign_cursor(cursor@, k.owner@, asked@));
                            return Err(text);
                        }
                    }
                    return Ok((k.owner.clone(), k.raw.clone()));
                }
            }
        }
        Err(concat3("курсор ", cursor, " протух — запросите домашнюю ленту заново"))
    }

    /// A page behind the cursor has come: the cursor is spent, and the page
    /// is merged into the feed. `None` where there is no feed.
    pub fn accept_more(&mut self, owner: &str, page: HomePage) -> (r: Option<HomeDraft>)
        ensures
            match old(self)@ {
                Some(c) => {
                    &&& final(self)@ == Some(HomeCacheView { cursor: None, ..c })
                    &&& r matches Some(draft)
                    &&& draft.page@ == merged_pages(
                        seq![HomePageView { next: None, ..c.page }, page@],
                    )
                    &&& opt_pair(draft.continuation) == (match page@.next {
                        Some(raw) => Some((owner@, raw)),
                        None => None,
                    })
                },
                None => final(self)@ is None && r is None,
            },
    {
        let ghost before = self@;
        match self.cache.take() {
            Some(c) => {
                let mut c = c;
                c.cursor = None;
                let mut previous = c.page.clone();
                previous.next = None;
                self.cache = Some(c);
                let continuation: Option<(String, String)> = match &page.next {
                    Some(raw) => Some((owner.to_owned(), raw.clone())),
                    None => None,
                };
                let mut pages: Vec<HomePage> = Vec::new();
                let ghost a = previous@;
                let ghost b = page@;
                pages.push(previous);
                pages.push(page);
                assert(page_views(pages@) =~= seq![a, b]);
                Some(HomeDraft { page: merge_home_pages(pages), continuation })
            },
            None => None,
        }
    }

    /// Takes over a feed that was continued. Its age stays.
    pub fn store_more(&mut self, draft: HomeDraft) -> (r: HomePage)
        ensures
            match old(self)@ {
                Some(c) => {
                    let continuation = opt_pair(draft.continuation);
                    &&& final(self)@ == Some(
                        HomeCacheView {
                            page: named_page(draft.page@, continuation, c.next_cursor),
                            cursor: named_cursor(continuation, c.next_cursor),
                            next_cursor: number_after(continuation, c.next_cursor),
                            ..c
                        },
                    )
                    &&& r@ == named_page(draft.page@, continuation, c.next_cursor)
                },
                None => final(self)@ is None && r@ == draft.page@,
            },
    {
        match self.cache.take() {
            Some(c) => {
                let number: u64 = c.next_cursor;
                let HomeDraft { page, continuation } = draft;
                let mut page = page;
                let mut next_cursor: u64 = number;
                let cursor: Option<Cursor> = match continuation {
                    Some((owner, raw)) => {
                        let name = concat2("h", decimal(number).as_str());
                        next_cursor = if number == u64::MAX {
                            0
                        } else {
                            number + 1
                        };
                        page.next = Some(name.clone());
                        Some(Cursor { name, owner, raw })
                    },
                    None => {
                        page.next = None;
                        None
                    },
                };
                let shown = page.clone();
                self.cache = Some(
                    HomeCache { key: c.key, at: c.at, page, cursor, next_cursor },
                );
                shown
            },
            None => draft.page,
        }
    }
}

/// What a source answered about the page behind a cursor. One that handed
/// the token out and now knows nothing of more has simply come to the end.
pub fn more_answer(result: Result<HomePage, ProviderError>) -> (r: Result<HomePage, ProviderError>)
    ensures
        match result {
            Ok(page) => r matches Ok(p) && p@ == page@,
            Err(e) => if e@ is Unsupported {
                r matches Ok(p) && p@ == (HomePageView { shelves: Seq::empty(), next: None })
            } else {
                r matches Err(same) && same@ == e@
            },
        },
{
    match result {
        Ok(page) => Ok(page),
        Err(error) => {
            let unsupported: bool = matches!(error, ProviderError::Unsupported { .. });
            if unsupported {
                let page = HomePage { shelves: Vec::new(), next: None };
                assert(page@.shelves =~= Seq::empty());
                Ok(page)
            } else {
                Err(error)
            }
        },
    }
}

/// The names of cursors differ as their numbers do.
pub proof fn lemma_cursor_names_differ(a: u64, b: u64)
    requires
        a != b,
    ensures
        cursor_name(a) != cursor_name(b),
{
    if cursor_name(a) == cursor_name(b) {
        reveal_strlit("h");
        let x = decimal_text(a as nat);
        let y = decimal_text(b as nat);
        assert(cursor_name(a).subrange(1, cursor_name(a).len() as int) =~= x);
        assert(cursor_name(b).subrange(1, cursor_name(b).len() as int) =~= y);
        lemma_decimal_round_trip(a);
        lemma_decimal_round_trip(b);
    }
}

/// A cursor is good for one page: once that page has come, neither the feed
/// in between nor the continued feed knows the old cursor.
pub proof fn lemma_cursor_is_spent(
    c: HomeCacheView,
    number: u64,
    provider: Option<Seq<char>>,
    page: HomePageView,
    continuation: Option<(Seq<char>, Seq<char>)>,
)
    requires
        number < c.next_cursor,
    ensures
        cursor_target(
            Some(HomeCacheView { cursor: None, ..c }),
            provider,
            cursor_name(number),
        ) == Err::<(Seq<char>, Seq<char>), Seq<char>>(stale_cursor(cursor_name(number))),
        cursor_target(
            Some(
                HomeCacheView {
                    page,
                    cursor: named_cursor(continuation, c.next_cursor),
                    ..c
                },
            ),
            provider,
            cursor_name(number),
        ) == Err::<(Seq<char>, Seq<char>), Seq<char>>(stale_cursor(cursor_name(number))),
{
    lemma_cursor_names_differ(number, c.next_cursor);
}

/// A freshly read feed knows none of the cursors of the feeds before it.
pub proof fn lemma_new_feed_forgets_old_cursors(
    feed: Option<HomeCacheView>,
    number: u64,
    cut: Option<Seq<char>>,
    provider: Option<Seq<char>>,
    page: HomePageView,
    continuation: Option<(Seq<char>, Seq<char>)>,
    now: u128,
)
    requires
        number < coming_number(feed),
    ensures
        cursor_target(
            Some(feed_after(feed, cut, page, continuation, now)),
            provider,
            cursor_name(number),
        ) == Err::<(Seq<char>, Seq<char>), Seq<char>>(stale_cursor(cursor_name(number))),
{
    lemma_cursor_names_differ(number, coming_number(feed));
}

/// The cursor that a page carries leads to the source and the token that it
/// was made from.
pub proof fn lemma_cursor_leads_to_its_source(
    feed: Option<HomeCacheView>,
    cut: Option<Seq<char>>,
    page: HomePageView,
    owner: Seq<char>,
    raw: Seq<char>,
    now: u128,
)
    ensures
        ({
            let after = feed_after(feed, cut, page, Some((owner, raw)), now);
            &&& after.page.next == Some(cursor_name(coming_number(feed)))
            &&& cursor_target(Some(after), None, after.page.next->0) == Ok::<
                (Seq<char>, Seq<char>),
                Seq<char>,
            >((owner, raw))
            &&& cursor_target(Some(after), Some(owner), after.page.next->0) == Ok::<
                (Seq<char>, Seq<char>),
                Seq<char>,
            >((owner, raw))
        }),
{
}

/// All shelves of some pages, page after page.
pub open spec fn all_shelves(pages: Seq<HomePageView>) -> Seq<CatalogShelfView> {
    pages.map_values(|p: HomePageView| p.shelves).flatten_alt()
}

/// Whether the place of a card, shelf and then card, is before another.
pub open spec fn comes_before(j: int, b: int, other_j: int, other_b: int) -> bool {
    j < other_j || (j == other_j && b < other_b)
}

/// Whether some shelf holds a card.
pub open spec fn card_at(shelves: Seq<CatalogShelfView>, j: int, b: int) -> bool {
    0 <= j < shelves.len() && 0 <= b < shelves[j].items.len()
}

/// Whether a card stands at a place of some shelves and no card with its key
/// stands before it.
pub open spec fn first_at(
    shelves: Seq<CatalogShelfView>,
    j: int,
    b: int,
    card: SearchResultView,
) -> bool {
    &&& card_at(shelves, j, b)
    &&& shelves[j].items[b] == card
    &&& forall|k: int, c: int|
        card_at(shelves, k, c) && comes_before(k, c, j, b) ==> card_key(
            #[trigger] shelves[k].items[c],
        ) != card_key(card)
}

/// Whether a shelf is the first of its title and subtitle.
pub open spec fn first_head(shelves: Seq<CatalogShelfView>, j: int) -> bool {
    &&& 0 <= j < shelves.len()
    &&& forall|k: int|
        0 <= k < j ==> (#[trigger] shelves[k]).title != shelves[j].title || shelves[k].subtitle
            != shelves[j].subtitle
}

proof fn lemma_fresh_cards_in_order(cards: Seq<SearchResultView>, seen: Set<Seq<char>>)
    ensures
        forall|a: int|
            0 <= a < fresh_cards(cards, seen).len() ==> exists|b: int|
                {
                    &&& 0 <= b < cards.len()
                    &&& #[trigger] cards[b] == #[trigger] fresh_cards(cards, seen)[a]
                    &&& forall|c: int|
                        0 <= c < b ==> card_key(#[trigger] cards[c]) != card_key(cards[b])
                },
        forall|a1: int, a2: int, b1: int, b2: int|
            #![trigger fresh_cards(cards, seen)[a1], fresh_cards(cards, seen)[a2], cards[b1], cards[b2]]
            {
                &&& 0 <= a1 < a2 < fresh_cards(cards, seen).len()
                &&& 0 <= b1 < cards.len()
                &&& 0 <= b2 < cards.len()
                &&& cards[b1] == fresh_cards(cards, seen)[a1]
                &&& cards[b2] == fresh_cards(cards, seen)[a2]
                &&& forall|c: int|
                    0 <= c < b1 ==> card_key(#[trigger] cards[c]) != card_key(cards[b1])
            } ==> b1 < b2,
    decreases cards.len(),
{
    if cards.len() > 0 {
        let before = cards.drop_last();
        lemma_fresh_cards_in_order(before, seen);
        lemma_fresh_cards(before, seen);
        let kept = fresh_cards(before, seen);
        let all = fresh_cards(cards, seen);
        let n = before.len() as int;
        assert forall|a: int| 0 <= a < all.len() implies exists|b: int|
            {
                &&& 0 <= b < cards.len()
                &&& #[trigger] cards[b] == #[trigger] all[a]
                &&& forall|c: int|
                    0 <= c < b ==> card_key(#[trigger] cards[c]) != card_key(cards[b])
            } by {
            if a < kept.len() {
                assert(all[a] == kept[a]);
                let b = choose|b: int|
                    {
                        &&& 0 <= b < before.len()
                        &&& #[trigger] before[b] == kept[a]
                        &&& forall|c: int|
                            0 <= c < b ==> card_key(#[trigger] before[c]) != card_key(before[b])
                    };
                assert(cards[b] == all[a]);
                assert forall|c: int| 0 <= c < b implies card_key(#[trigger] cards[c]) != card_key(
                    cards[b],
                ) by {
                    assert(before[c] == cards[c]);
                }
            } else {
                assert(cards[n] == all[a]);
                assert forall|c: int| 0 <= c < n implies card_key(#[trigger] cards[c]) != card_key(
                    cards[n],
                ) by {
                    assert(before[c] == cards[c]);
                    lemma_card_keys(before, card_key(cards[n]));
                }
            }
        }
        assert forall|a1: int, a2: int, b1: int, b2: int|
            #![trigger all[a1], all[a2], cards[b1], cards[b2]]
            {
                &&& 0 <= a1 < a2 < all.len()
                &&& 0 <= b1 < cards.len()
                &&& 0 <= b2 < cards.len()
                &&& cards[b1] == all[a1]
                &&& cards[b2] == all[a2]
                &&& forall|c: int|
                    0 <= c < b1 ==> card_key(#[trigger] cards[c]) != card_key(cards[b1])
            } implies b1 < b2 by {
            assert(all[a1] == kept[a1]);
            let f = choose|b: int|
                {
                    &&& 0 <= b < before.len()
                    &&& #[trigger] before[b] == kept[a1]
                    &&& forall|c: int|
                        0 <= c < b ==> card_key(#[trigger] before[c]) != card_key(before[b])
                };
            assert(cards[f] == cards[b1]);
            assert(b1 <= f);
            assert(before[b1] == cards[b1]);
            if a2 < kept.len() {
                assert(all[a2] == kept[a2]);
                if b2 < n {
                    assert(before[b2] == cards[b2]);
                    assert forall|c: int| 0 <= c < b1 implies card_key(#[trigger] before[c])
                        != card_key(before[b1]) by {
                        assert(cards[c] == before[c]);
                    }
                }
            } else {
                lemma_card_keys(before, card_key(cards[n]));
                assert(cards[n] == all[a2]);
                if b2 < n {
                    assert(card_key(before[b2]) == card_key(cards[n]));
                }
            }
        }
    }
}

proof fn lemma_shelves_add_up(
    feed: FeedView,
    first: Seq<CatalogShelfView>,
    second: Seq<CatalogShelfView>,
)
    ensures
        with_shelves(feed, first + second) == with_shelves(with_shelves(feed, first), second),
    decreases second.len(),
{
    if second.len() == 0 {
        assert(first + second =~= first);
    } else {
        lemma_shelves_add_up(feed, first, second.drop_last());
        assert((first + second).drop_last() =~= first + second.drop_last());
        assert((first + second).last() == second.last());
    }
}

proof fn lemma_pages_are_their_shelves(pages: Seq<HomePageView>)
    ensures
        with_pages(empty_feed(), pages) == with_shelves(empty_feed(), all_shelves(pages)),
    decreases pages.len(),
{
    let lists = pages.map_values(|p: HomePageView| p.shelves);
    if pages.len() > 0 {
        lemma_pages_are_their_shelves(pages.drop_last());
        assert(lists.drop_last() =~= pages.drop_last().map_values(|p: HomePageView| p.shelves));
        lemma_shelves_add_up(
            empty_feed(),
            all_shelves(pages.drop_last()),
            pages.last().shelves,
        );
        assert(all_shelves(pages) =~= all_shelves(pages.drop_last()) + pages.last().shelves);
    }
}

/// Whether every card of a feed is the first with its key among the shelves
/// that it was made of, on a shelf of the same title and subtitle.
pub open spec fn cards_at_home(feed: FeedView, shelves: Seq<CatalogShelfView>) -> bool {
    forall|i: int, a: int|
        holds_card(feed, i, a) ==> exists|j: int, b: int|
            {
                &&& first_at(shelves, j, b, #[trigger] feed.shelves[i].items[a])
                &&& #[trigger] shelves[j].items[b] == feed.shelves[i].items[a]
                &&& feed.shelves[i].title == shelves[j].title
                &&& feed.shelves[i].subtitle == shelves[j].subtitle
            }
}

/// Whether the cards of each shelf stand in the order in which they came.
pub open spec fn cards_in_order(feed: FeedView, shelves: Seq<CatalogShelfView>) -> bool {
    forall|i: int, a1: int, a2: int, j1: int, b1: int, j2: int, b2: int|
        #![trigger first_at(shelves, j1, b1, feed.shelves[i].items[a1]), first_at(shelves, j2, b2, feed.shelves[i].items[a2])]
        holds_card(feed, i, a1) && holds_card(feed, i, a2) && a1 < a2 && first_at(
            shelves,
            j1,
            b1,
            feed.shelves[i].items[a1],
        ) && first_at(shelves, j2, b2, feed.shelves[i].items[a2]) ==> comes_before(j1, b1, j2, b2)
}

proof fn lemma_feed_of_shelves(shelves: Seq<CatalogShelfView>)
    ensures
        cards_at_home(with_shelves(empty_feed(), shelves), shelves),
        cards_in_order(with_shelves(empty_feed(), shelves), shelves),
        feed_ok(with_shelves(empty_feed(), shelves)),
    decreases shelves.len(),
{
    lemma_shelves_keep_the_feed_ok(empty_feed(), shelves);
    if shelves.len() > 0 {
        let before = shelves.drop_last();
        let shelf = shelves.last();
        let n = before.len() as int;
        let feed = with_shelves(empty_feed(), before);
        let next = with_shelves(empty_feed(), shelves);
        lemma_feed_of_shelves(before);
        lemma_fresh_cards(shelf.items, feed.seen);
        lemma_fresh_cards_in_order(shelf.items, feed.seen);
        lemma_shelf_place(feed.shelves, shelf, 0);
        let items = fresh_cards(shelf.items, feed.seen);
        let at = match shelf_place(feed.shelves, shelf, 0) {
            Some(i) => i,
            None => feed.shelves.len() as int,
        };
        let base = if at < feed.shelves.len() {
            feed.shelves[at].items.len() as int
        } else {
            0
        };
        assert forall|i: int, a: int| holds_card(next, i, a) implies (if i == at && a >= base {
            next.shelves[i].items[a] == items[a - base] && 0 <= a - base < items.len()
        } else {
            holds_card(feed, i, a) && next.shelves[i].items[a] == feed.shelves[i].items[a]
                && next.shelves[i].title == feed.shelves[i].title && next.shelves[i].subtitle
                == feed.shelves[i].subtitle
        }) by {}
        // Where a card came first before, it still does.
        assert forall|j: int, b: int, card: SearchResultView|
            #[trigger] first_at(before, j, b, card) implies first_at(shelves, j, b, card) by {
            assert forall|k: int, c: int|
                card_at(shelves, k, c) && comes_before(k, c, j, b) implies card_key(
                #[trigger] shelves[k].items[c],
            ) != card_key(card) by {
                assert(before[k].items[c] == shelves[k].items[c]);
                assert(card_at(before, k, c));
            }
        }
        assert forall|j: int, b: int, card: SearchResultView|
            #[trigger] first_at(shelves, j, b, card) && j < n implies first_at(
            before,
            j,
            b,
            card,
        ) by {
            assert forall|k: int, c: int|
                card_at(before, k, c) && comes_before(k, c, j, b) implies card_key(
                #[trigger] before[k].items[c],
            ) != card_key(card) by {
                assert(before[k].items[c] == shelves[k].items[c]);
                assert(card_at(shelves, k, c));
            }
        }
        // The first place of a new card is on the last shelf.
        assert forall|a: int| 0 <= a < items.len() implies forall|k: int, c: int|
            card_at(before, k, c) ==> card_key(#[trigger] before[k].items[c]) != card_key(
                #[trigger] items[a],
            ) by {
            assert forall|k: int, c: int| card_at(before, k, c) implies card_key(
                #[trigger] before[k].items[c],
            ) != card_key(items[a]) by {
                let key = card_key(before[k].items[c]);
                lemma_shelves_see_their_cards(empty_feed(), before, key);
                lemma_card_keys(before[k].items, key);
                assert(card_keys(before[k].items).contains(key));
                assert(feed.seen.contains(key));
            }
        }
        assert forall|i: int, a: int| holds_card(next, i, a) implies exists|j: int, b: int|
            {
                &&& first_at(shelves, j, b, #[trigger] next.shelves[i].items[a])
                &&& #[trigger] shelves[j].items[b] == next.shelves[i].items[a]
                &&& next.shelves[i].title == shelves[j].title
                &&& next.shelves[i].subtitle == shelves[j].subtitle
            } by {
            if i == at && a >= base {
                let card = items[a - base];
                let b = choose|b: int|
                    {
                        &&& 0 <= b < shelf.items.len()
                        &&& #[trigger] shelf.items[b] == card
                        &&& forall|c: int|
                            0 <= c < b ==> card_key(#[trigger] shelf.items[c]) != card_key(
                                shelf.items[b],
                            )
                    };
                assert(shelves[n].items[b] == card);
                assert forall|k: int, c: int|
                    card_at(shelves, k, c) && comes_before(k, c, n, b) implies card_key(
                    #[trigger] shelves[k].items[c],
                ) != card_key(card) by {
                    if k < n {
                        assert(before[k].items[c] == shelves[k].items[c]);
                        assert(card_at(before, k, c));
                    } else {
                        assert(shelf.items[c] == shelves[k].items[c]);
                    }
                }
                assert(first_at(shelves, n, b, card));
            } else {
                let (j, b) = choose|j: int, b: int|
                    {
                        &&& first_at(before, j, b, feed.shelves[i].items[a])
                        &&& #[trigger] before[j].items[b] == feed.shelves[i].items[a]
                        &&& feed.shelves[i].title == before[j].title
                        &&& feed.shelves[i].subtitle == before[j].subtitle
                    };
                assert(first_at(shelves, j, b, next.shelves[i].items[a]));
                assert(shelves[j].items[b] == next.shelves[i].items[a]);
            }
        }
        assert forall|i: int, a1: int, a2: int, j1: int, b1: int, j2: int, b2: int|
            #![trigger first_at(shelves, j1, b1, next.shelves[i].items[a1]), first_at(shelves, j2, b2, next.shelves[i].items[a2])]
            holds_card(next, i, a1) && holds_card(next, i, a2) && a1 < a2 && first_at(
                shelves,
                j1,
                b1,
                next.shelves[i].items[a1],
            ) && first_at(shelves, j2, b2, next.shelves[i].items[a2]) implies comes_before(
            j1,
            b1,
            j2,
            b2,
        ) by {
            if i == at && a2 >= base {
                // The later card is new, so it came with the last shelf.
                if j2 < n {
                    assert(before[j2].items[b2] == shelves[j2].items[b2]);
                    assert(card_at(before, j2, b2));
                }
                assert(j2 == n);
                if a1 >= base {
                    if j1 < n {
                        assert(before[j1].items[b1] == shelves[j1].items[b1]);
                        assert(card_at(before, j1, b1));
                    }
                    assert(j1 == n);
                    assert forall|c: int| 0 <= c < b1 implies card_key(#[trigger] shelf.items[c])
                        != card_key(shelf.items[b1]) by {
                        assert(card_at(shelves, n, c));
                        assert(shelves[n].items[c] == shelf.items[c]);
                    }
                    assert(shelf.items[b1] == items[a1 - base]);
                    assert(shelf.items[b2] == items[a2 - base]);
                } else {
                    let (j, b) = choose|j: int, b: int|
                        first_at(before, j, b, feed.shelves[i].items[a1])
                            && #[trigger] before[j].items[b] == feed.shelves[i].items[a1];
                    assert(first_at(shelves, j, b, next.shelves[i].items[a1]));
                    if j1 == n {
                        assert(card_at(shelves, j, b));
                        assert(comes_before(j, b, j1, b1));
                        assert(card_key(shelves[j].items[b]) != card_key(
                            next.shelves[i].items[a1],
                        ));
                    }
                }
            } else {
                let (ja, ba) = choose|j: int, b: int|
                    first_at(before, j, b, feed.shelves[i].items[a1])
                        && #[trigger] before[j].items[b] == feed.shelves[i].items[a1];
                let (jb, bb) = choose|j: int, b: int|
                    first_at(before, j, b, feed.shelves[i].items[a2])
                        && #[trigger] before[j].items[b] == feed.shelves[i].items[a2];
                assert(first_at(shelves, ja, ba, next.shelves[i].items[a1]));
                assert(first_at(shelves, jb, bb, next.shelves[i].items[a2]));
                if j1 == n {
                    assert(card_at(shelves, ja, ba) && comes_before(ja, ba, j1, b1));
                    assert(card_key(shelves[ja].items[ba]) != card_key(next.shelves[i].items[a1]));
                }
                if j2 == n {
                    assert(card_at(shelves, jb, bb) && comes_before(jb, bb, j2, b2));
                    assert(card_key(shelves[jb].items[bb]) != card_key(next.shelves[i].items[a2]));
                }
                assert(first_at(before, j1, b1, feed.shelves[i].items[a1]));
                assert(first_at(before, j2, b2, feed.shelves[i].items[a2]));
            }
        }
    }
}

/// A card of the merged feed stands on a shelf with the title and the
/// subtitle of a shelf that held it in one of the pages, and of all cards
/// with its key it is the one that came first.
pub proof fn lemma_cards_stay_on_their_shelves(pages: Seq<HomePageView>, i: int, a: int)
    requires
        0 <= i < merged_pages(pages).shelves.len(),
        0 <= a < merged_pages(pages).shelves[i].items.len(),
    ensures
        exists|j: int, b: int|
            {
                &&& 0 <= j < all_shelves(pages).len()
                &&& 0 <= b < all_shelves(pages)[j].items.len()
                &&& #[trigger] all_shelves(pages)[j].items[b] == merged_pages(
                    pages,
                ).shelves[i].items[a]
                &&& all_shelves(pages)[j].title == merged_pages(pages).shelves[i].title
                &&& all_shelves(pages)[j].subtitle == merged_pages(pages).shelves[i].subtitle
                &&& forall|k: int, c: int|
                    card_at(all_shelves(pages), k, c) && comes_before(k, c, j, b) ==> card_key(
                        #[trigger] all_shelves(pages)[k].items[c],
                    ) != card_key(all_shelves(pages)[j].items[b])
            },
{
    let shelves = all_shelves(pages);
    lemma_pages_are_their_shelves(pages);
    lemma_feed_of_shelves(shelves);
    let feed = with_shelves(empty_feed(), shelves);
    assert(holds_card(feed, i, a));
    let (j, b) = choose|j: int, b: int|
        {
            &&& first_at(shelves, j, b, feed.shelves[i].items[a])
            &&& #[trigger] shelves[j].items[b] == feed.shelves[i].items[a]
            &&& feed.shelves[i].title == shelves[j].title
            &&& feed.shelves[i].subtitle == shelves[j].subtitle
        };
    assert(shelves[j].items[b] == merged_pages(pages).shelves[i].items[a]);
}

/// The cards of a merged shelf stand in the order in which they came: of two
/// of them the earlier one came first.
pub proof fn lemma_cards_keep_their_order(
    pages: Seq<HomePageView>,
    i: int,
    a1: int,
    a2: int,
    j1: int,
    b1: int,
    j2: int,
    b2: int,
)
    requires
        0 <= i < merged_pages(pages).shelves.len(),
        0 <= a1 < a2 < merged_pages(pages).shelves[i].items.len(),
        first_at(all_shelves(pages), j1, b1, merged_pages(pages).shelves[i].items[a1]),
        first_at(all_shelves(pages), j2, b2, merged_pages(pages).shelves[i].items[a2]),
    ensures
        j1 < j2 || (j1 == j2 && b1 < b2),
{
    lemma_pages_are_their_shelves(pages);
    lemma_feed_of_shelves(all_shelves(pages));
    let feed = with_shelves(empty_feed(), all_shelves(pages));
    assert(holds_card(feed, i, a1) && holds_card(feed, i, a2));
}

/// Nothing is lost and nothing is shown twice: for every card of every page
/// the merged feed has one with its key, at one place alone.
pub proof fn lemma_every_card_is_shown_once(pages: Seq<HomePageView>, j: int, b: int)
    requires
        0 <= j < all_shelves(pages).len(),
        0 <= b < all_shelves(pages)[j].items.len(),
    ensures
        exists|i: int, a: int|
            {
                &&& 0 <= i < merged_pages(pages).shelves.len()
                &&& 0 <= a < merged_pages(pages).shelves[i].items.len()
                &&& card_key(#[trigger] merged_pages(pages).shelves[i].items[a]) == card_key(
                    all_shelves(pages)[j].items[b],
                )
            },
        forall|i: int, a: int, k: int, c: int|
            {
                &&& 0 <= i < merged_pages(pages).shelves.len()
                &&& 0 <= a < merged_pages(pages).shelves[i].items.len()
                &&& 0 <= k < merged_pages(pages).shelves.len()
                &&& 0 <= c < merged_pages(pages).shelves[k].items.len()
                &&& card_key(#[trigger] merged_pages(pages).shelves[i].items[a]) == card_key(
                    #[trigger] merged_pages(pages).shelves[k].items[c],
                )
            } ==> i == k && a == c,
{
    let shelves = all_shelves(pages);
    let key = card_key(shelves[j].items[b]);
    lemma_pages_are_their_shelves(pages);
    lemma_feed_of_shelves(shelves);
    lemma_shelves_see_their_cards(empty_feed(), shelves, key);
    lemma_card_keys(shelves[j].items, key);
    assert(card_keys(shelves[j].items).contains(key));
    let feed = with_shelves(empty_feed(), shelves);
    assert(feed.seen.contains(key));
    let (i, a) = choose|i: int, a: int| holds_card(feed, i, a) && #[trigger] key_at(feed, i, a) == key;
    assert(card_key(merged_pages(pages).shelves[i].items[a]) == key);
    assert forall|i: int, a: int, k: int, c: int|
        {
            &&& 0 <= i < merged_pages(pages).shelves.len()
            &&& 0 <= a < merged_pages(pages).shelves[i].items.len()
            &&& 0 <= k < merged_pages(pages).shelves.len()
            &&& 0 <= c < merged_pages(pages).shelves[k].items.len()
            &&& card_key(#[trigger] merged_pages(pages).shelves[i].items[a]) == card_key(
                #[trigger] merged_pages(pages).shelves[k].items[c],
            )
        } implies i == k && a == c by {
        assert(key_at(feed, i, a) == key_at(feed, k, c));
    }
}

/// The shelves of a feed and where each of their heads came first.
proof fn lemma_heads_of_shelves(shelves: Seq<CatalogShelfView>) -> (origin: Seq<int>)
    ensures
        origin.len() == with_shelves(empty_feed(), shelves).shelves.len(),
        forall|i: int|
            0 <= i < origin.len() ==> first_head(shelves, #[trigger] origin[i]) && same_head(
                with_shelves(empty_feed(), shelves).shelves[i],
                shelves[origin[i]],
            ),
        forall|i: int, k: int| 0 <= i < k < origin.len() ==> origin[i] < origin[k],
        forall|j: int|
            0 <= j < shelves.len() ==> shelf_place(
                with_shelves(empty_feed(), shelves).shelves,
                #[trigger] shelves[j],
                0,
            ) is Some,
    decreases shelves.len(),
{
    if shelves.len() == 0 {
        Seq::empty()
    } else {
        let before = shelves.drop_last();
        let shelf = shelves.last();
        let n = before.len() as int;
        let had = with_shelves(empty_feed(), before).shelves;
        let made = with_shelves(empty_feed(), shelves).shelves;
        let known = lemma_heads_of_shelves(before);
        lemma_shelf_place(had, shelf, 0);
        assert forall|i: int| 0 <= i < had.len() implies same_head(#[trigger] made[i], had[i]) by {}
        assert forall|j: int| 0 <= j < shelves.len() implies shelf_place(
            made,
            #[trigger] shelves[j],
            0,
        ) is Some by {
            lemma_shelf_place(made, shelves[j], 0);
            if j < n {
                assert(before[j] == shelves[j]);
                lemma_shelf_place(had, before[j], 0);
                let i = shelf_place(had, before[j], 0)->0;
                assert(same_head(made[i], shelves[j]));
            } else {
                match shelf_place(had, shelf, 0) {
                    Some(i) => {
                        assert(same_head(made[i], shelves[j]));
                    },
                    None => {
                        assert(same_head(made[had.len() as int], shelves[j]));
                    },
                }
            }
        }
        assert forall|j: int| first_head(before, j) implies #[trigger] first_head(shelves, j) by {
            assert forall|k: int| 0 <= k < j implies (#[trigger] shelves[k]).title
                != shelves[j].title || shelves[k].subtitle != shelves[j].subtitle by {
                assert(before[k] == shelves[k]);
            }
        }
        let origin = match shelf_place(had, shelf, 0) {
            Some(_) => known,
            None => known.push(n),
        };
        if shelf_place(had, shelf, 0) is None {
            assert forall|k: int| 0 <= k < n implies (#[trigger] shelves[k]).title
                != shelves[n].title || shelves[k].subtitle != shelves[n].subtitle by {
                assert(before[k] == shelves[k]);
                lemma_shelf_place(had, before[k], 0);
                let i = shelf_place(had, before[k], 0)->0;
                assert(!same_head(had[i], shelf));
            }
            assert(first_head(shelves, n));
        }
        assert forall|i: int| 0 <= i < origin.len() implies first_head(
            shelves,
            #[trigger] origin[i],
        ) && same_head(made[i], shelves[origin[i]]) by {
            if i < known.len() {
                assert(first_head(before, known[i]));
                assert(first_head(shelves, known[i]));
                assert(shelves[known[i]] == before[known[i]]);
                assert(same_head(made[i], had[i]));
            }
        }
        origin
    }
}

/// Every shelf of every page is shown, and those of one title and subtitle
/// as one: the merged shelves stand in the order in which their heads came
/// first, and no head stands twice.
pub proof fn lemma_shelves_are_joined_by_head(pages: Seq<HomePageView>, j: int, i1: int, i2: int)
    ensures
        0 <= j < all_shelves(pages).len() ==> exists|i: int|
            {
                &&& 0 <= i < merged_pages(pages).shelves.len()
                &&& (#[trigger] merged_pages(pages).shelves[i]).title == all_shelves(
                    pages,
                )[j].title
                &&& merged_pages(pages).shelves[i].subtitle == all_shelves(pages)[j].subtitle
            },
        0 <= i1 < i2 < merged_pages(pages).shelves.len() ==> {
            &&& merged_pages(pages).shelves[i1].title != merged_pages(pages).shelves[i2].title
                || merged_pages(pages).shelves[i1].subtitle != merged_pages(
                pages,
            ).shelves[i2].subtitle
            &&& exists|k1: int, k2: int|
                #![trigger all_shelves(pages)[k1], all_shelves(pages)[k2]]
                {
                    &&& k1 < k2
                    &&& first_head(all_shelves(pages), k1)
                    &&& first_head(all_shelves(pages), k2)
                    &&& all_shelves(pages)[k1].title == merged_pages(pages).shelves[i1].title
                    &&& all_shelves(pages)[k1].subtitle == merged_pages(pages).shelves[i1].subtitle
                    &&& all_shelves(pages)[k2].title == merged_pages(pages).shelves[i2].title
                    &&& all_shelves(pages)[k2].subtitle == merged_pages(pages).shelves[i2].subtitle
                }
        },
{
    let shelves = all_shelves(pages);
    lemma_pages_are_their_shelves(pages);
    let origin = lemma_heads_of_shelves(shelves);
    let made = merged_pages(pages).shelves;
    if 0 <= j < shelves.len() {
        lemma_shelf_place(made, shelves[j], 0);
        let i = shelf_place(made, shelves[j], 0)->0;
        assert(merged_pages(pages).shelves[i].title == shelves[j].title);
    }
    if 0 <= i1 < i2 < made.len() {
        let k1 = origin[i1];
        let k2 = origin[i2];
        assert(first_head(shelves, k1) && first_head(shelves, k2));
        assert(shelves[k1].title == made[i1].title);
        assert(all_shelves(pages)[k2].title == made[i2].title);
    }
}

/// What makes two cards one: the same kind, source and id, whatever else
/// they show.
pub proof fn lemma_cards_are_told_apart(a: SearchResultView, b: SearchResultView)
    ensures
        (a is Track && b is Playlist) || (a is Track && b is Artist) || (a is Playlist && b
            is Artist) ==> card_key(a) != card_key(b),
        a matches SearchResultView::Track(s) ==> b matches SearchResultView::Track(t) ==> {
            &&& s.id == t.id ==> card_key(a) == card_key(b)
            &&& s.id.provider == t.id.provider && s.id.id != t.id.id ==> card_key(a) != card_key(b)
        },
        a matches SearchResultView::Playlist(s) ==> b matches SearchResultView::Playlist(t) ==> {
            &&& s.id == t.id ==> card_key(a) == card_key(b)
            &&& s.id.provider == t.id.provider && s.id.id != t.id.id ==> card_key(a) != card_key(b)
        },
        a matches SearchResultView::Artist { provider: p, id: i, .. } ==> b
            matches SearchResultView::Artist { provider: q, id: j, .. } ==> {
            &&& p == q && i == j ==> card_key(a) == card_key(b)
            &&& p == q && i != j ==> card_key(a) != card_key(b)
        },
{
    reveal_strlit("t:");
    reveal_strlit("p:");
    reveal_strlit("a:");
    reveal_strlit(":");
    if a is Track && (b is Playlist || b is Artist) {
        assert(card_key(a)[0] == 't');
    }
    if b is Artist {
        assert(card_key(b)[0] == 'a');
    }
    if b is Playlist {
        assert(card_key(b)[0] == 'p');
    }
    if a is Playlist {
        assert(card_key(a)[0] == 'p');
    }
    match (a, b) {
        (SearchResultView::Track(s), SearchResultView::Track(t)) => {
            lemma_tails_differ("t:"@ + (s.id.provider + ":"@), s.id.id, t.id.id);
            assert(card_key(a) =~= "t:"@ + (s.id.provider + ":"@) + s.id.id);
            assert(s.id.provider == t.id.provider ==> card_key(b) =~= "t:"@ + (s.id.provider
                + ":"@) + t.id.id);
        },
        (SearchResultView::Playlist(s), SearchResultView::Playlist(t)) => {
            lemma_tails_differ("p:"@ + (s.id.provider + ":"@), s.id.id, t.id.id);
            assert(card_key(a) =~= "p:"@ + (s.id.provider + ":"@) + s.id.id);
            assert(s.id.provider == t.id.provider ==> card_key(b) =~= "p:"@ + (s.id.provider
                + ":"@) + t.id.id);
        },
        (
            SearchResultView::Artist { provider: p, id: i, .. },
            SearchResultView::Artist { provider: q, id: j, .. },
        ) => {
            lemma_tails_differ("a:"@ + p + ":"@, i, j);
        },
        _ => {},
    }
}

proof fn lemma_tails_differ(head: Seq<char>, a: Seq<char>, b: Seq<char>)
    ensures
        a != b ==> head + a != head + b,
{
    if head + a == head + b {
        assert((head + a).subrange(head.len() as int, (head + a).len() as int) =~= a);
        assert((head + b).subrange(head.len() as int, (head + b).len() as int) =~= b);
    }
}

/// What comes after the merged feed is what comes after the first page that
/// has more.
pub proof fn lemma_first_continuation_counts(pages: Seq<HomePageView>)
    ensures
        match merged_pages(pages).next {
            Some(next) => exists|p: int|
                0 <= p < pages.len() && (#[trigger] pages[p]).next == Some(next) && forall|k: int|
                    0 <= k < p ==> (#[trigger] pages[k]).next is None,
            None => forall|k: int| 0 <= k < pages.len() ==> (#[trigger] pages[k]).next is None,
        },
    decreases pages.len(),
{
    if pages.len() > 0 {
        let before = pages.drop_last();
        lemma_first_continuation_counts(before);
        match first_next(before) {
            Some(next) => {
                let p = choose|p: int|
                    0 <= p < before.len() && (#[trigger] before[p]).next == Some(next) && forall|
                        k: int,
                    |
                        0 <= k < p ==> (#[trigger] before[k]).next is None;
                assert(pages[p].next == Some(next));
                assert forall|k: int| 0 <= k < p implies (#[trigger] pages[k]).next is None by {
                    assert(before[k].next is None);
                }
            },
            None => {
                assert forall|k: int| 0 <= k < before.len() implies (
                #[trigger] pages[k]).next is None by {
                    assert(before[k].next is None);
                }
                if pages.last().next is Some {
                    assert(pages[pages.len() - 1].next is Some);
                }
            },
        }
    }
}

/// The feed is made of the pages of the sources that answered, in their
/// order, and goes on where the first of them that has more goes on.
pub proof fn lemma_answers_make_the_feed(
    answers: Seq<(Seq<char>, Result<HomePageView, ProviderErrorView>)>,
)
    ensures
        answered_pages(answers) == answers.filter(
            |a: (Seq<char>, Result<HomePageView, ProviderErrorView>)| a.1 is Ok,
        ).map_values(
            |a: (Seq<char>, Result<HomePageView, ProviderErrorView>)|
                HomePageView { shelves: a.1->Ok_0.shelves, next: None },
        ),
        match first_token(answers) {
            Some((name, raw)) => exists|k: int|
                {
                    &&& 0 <= k < answers.len()
                    &&& (#[trigger] answers[k]).0 == name
                    &&& answers[k].1 matches Ok(page)
                    &&& page.next == Some(raw)
                    &&& forall|j: int|
                        0 <= j < k ==> ((#[trigger] answers[j]).1 matches Ok(page) ==> page.next
                            is None)
                },
            None => forall|k: int|
                0 <= k < answers.len() ==> ((#[trigger] answers[k]).1 matches Ok(page)
                    ==> page.next is None),
        },
    decreases answers.len(),
{
    let ok = |a: (Seq<char>, Result<HomePageView, ProviderErrorView>)| a.1 is Ok;
    let bare = |a: (Seq<char>, Result<HomePageView, ProviderErrorView>)|
        HomePageView { shelves: a.1->Ok_0.shelves, next: None };
    reveal(Seq::filter);
    if answers.len() == 0 {
        assert(answered_pages(answers) =~= answers.filter(ok).map_values(bare));
    } else {
        let before = answers.drop_last();
        lemma_answers_make_the_feed(before);
        assert(answered_pages(answers) =~= answers.filter(ok).map_values(bare));
        match first_token(before) {
            Some((name, raw)) => {
                let k = choose|k: int|
                    {
                        &&& 0 <= k < before.len()
                        &&& (#[trigger] before[k]).0 == name
                        &&& before[k].1 matches Ok(page)
                        &&& page.next == Some(raw)
                        &&& forall|j: int|
                            0 <= j < k ==> ((#[trigger] before[j]).1 matches Ok(page)
                                ==> page.next is None)
                    };
                assert(answers[k] == before[k]);
                assert forall|j: int| 0 <= j < k implies ((#[trigger] answers[j]).1 matches Ok(
                    page,
                ) ==> page.next is None) by {
                    assert(answers[j] == before[j]);
                }
            },
            None => {
                assert forall|j: int| 0 <= j < before.len() implies ((
                #[trigger] answers[j]).1 matches Ok(page) ==> page.next is None) by {
                    assert(answers[j] == before[j]);
                }
                assert(answers[answers.len() - 1] == answers.last());
            },
        }
    }
}

/// A feed that was read is shown again for ten minutes, to those who ask for
/// the same cut of it, and not after.
pub proof fn lemma_feed_is_fresh_for_ten_minutes(
    feed: Option<HomeCacheView>,
    cut: Option<Seq<char>>,
    other: Option<Seq<char>>,
    page: HomePageView,
    continuation: Option<(Seq<char>, Seq<char>)>,
    now: u128,
    later: u128,
)
    requires
        now <= later,
    ensures
        ({
            let after = Some(feed_after(feed, cut, page, continuation, now));
            &&& later - now < 600_000_000_000 ==> (fresh_feed(after, cut, later) matches Some(shown)
                && shown.shelves == page.shelves && (shown.next is Some <==> continuation is Some))
            &&& later - now >= 600_000_000_000 ==> fresh_feed(after, cut, later) is None
            &&& cut is Some && other is Some && cut != other ==> fresh_feed(after, other, later)
                is None
            &&& cut is None && (other matches Some(name) && name != "all"@) ==> fresh_feed(
                after,
                other,
                later,
            ) is None
            &&& other is None && (cut matches Some(name) && name != "all"@) ==> fresh_feed(
                after,
                other,
                later,
            ) is None
            &&& fresh_feed(None, cut, later) is None
        }),
{
}

/// A cursor leads nowhere but to its own source: whoever names another
/// source or another cursor is refused.
pub proof fn lemma_cursor_leads_nowhere_else(
    feed: Option<HomeCacheView>,
    cut: Option<Seq<char>>,
    page: HomePageView,
    owner: Seq<char>,
    raw: Seq<char>,
    now: u128,
    asked: Option<Seq<char>>,
    cursor: Seq<char>,
)
    ensures
        ({
            let after = feed_after(feed, cut, page, Some((owner, raw)), now);
            cursor_target(Some(after), asked, cursor) is Ok <==> after.page.next == Some(cursor)
                && (asked is None || asked == Some(owner))
        }),
        cursor_target(Some(feed_after(feed, cut, page, None, now)), asked, cursor) is Err,
        cursor_target(None, asked, cursor) is Err,
{
}

/// The cards of a page are those of its shelves, shelf after shelf.
pub proof fn lemma_cards_are_listed_shelf_by_shelf(shelves: Seq<CatalogShelfView>)
    ensures
        shelf_cards(shelves) == shelves.map_values(|s: CatalogShelfView| s.items).flatten_alt(),
    decreases shelves.len(),
{
    if shelves.len() > 0 {
        let items = shelves.map_values(|s: CatalogShelfView| s.items);
        let rest = shelves.drop_last();
        lemma_cards_are_listed_shelf_by_shelf(rest);
        assert(items.drop_last() =~= rest.map_values(|s: CatalogShelfView| s.items));
        assert(shelf_cards(shelves) =~= items.flatten_alt());
    }
}

/// A source that failed spoils the feed, whatever went wrong; one that has
/// no feed to offer does not, and neither does one that answered.
pub proof fn lemma_failures_spoil_the_feed(
    name: Seq<char>,
    page: HomePageView,
    e: ProviderErrorView,
)
    ensures
        !spoils((name, Ok(page))),
        e is Unsupported ==> !spoils((name, Err(e))),
        e is Auth || e is Network || e is Format || e is NoSuchTrack || e is NoSuchPlaylist || e
            is Tool ==> spoils((name, Err(e))),
{
}

} // verus!
