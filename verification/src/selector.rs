//! Matches a user-supplied selector string against the list of open tabs.
//!
//! A selector is tried, in order, as:
//! 1. An exact numeric tab id.
//! 2. A case-insensitive substring match against the tab's title or program name.

use vstd::prelude::*;
use crate::protocol::{TabInfo, program_name};
use crate::text::{chars_of, contains_chars, contains_seq, lowercase, to_lowercase};

verus! {

/// Whether `c` is an ASCII decimal digit.
pub open spec fn is_digit(c: char) -> bool {
    '0' <= c <= '9'
}

/// The value of a string of decimal digits.
pub open spec fn digits_value(d: Seq<char>) -> nat
    decreases d.len(),
{
    if d.len() == 0 {
        0
    } else {
        digits_value(d.drop_last()) * 10 + ((d.last() as u32) - ('0' as u32)) as nat
    }
}

/// The digits that follow an optional leading `+`.
pub open spec fn unsigned_digits(s: Seq<char>) -> Seq<char> {
    if s.len() > 0 && s[0] == '+' {
        s.drop_first()
    } else {
        s
    }
}

/// What `str::parse` gives for an unsigned type whose largest value is
/// `max`: an optional `+`, then one or more decimal digits whose value is at
/// most `max`.
pub open spec fn parse_unsigned_spec(s: Seq<char>, max: u64) -> Option<u64> {
    let d = unsigned_digits(s);
    if d.len() > 0 && (forall|i: int| 0 <= i < d.len() ==> is_digit(#[trigger] d[i]))
        && digits_value(d) <= max {
        Some(digits_value(d) as u64)
    } else {
        None
    }
}

/// What `str::parse::<u32>` gives.
pub open spec fn parse_u32_spec(s: Seq<char>) -> Option<u32> {
    match parse_unsigned_spec(s, u32::MAX as u64) {
        Some(v) => Some(v as u32),
        None => None,
    }
}

proof fn lemma_digits_value_grows(d: Seq<char>, k: int)
    requires
        0 <= k <= d.len(),
        forall|i: int| 0 <= i < d.len() ==> is_digit(#[trigger] d[i]),
    ensures
        digits_value(d.subrange(0, k)) <= digits_value(d),
    decreases d.len(),
{
    if k < d.len() {
        let t = d.drop_last();
        assert forall|i: int| 0 <= i < t.len() implies is_digit(#[trigger] t[i]) by {
            assert(t[i] == d[i]);
        }
        lemma_digits_value_grows(t, k);
        assert(t.subrange(0, k) == d.subrange(0, k));
    } else {
        assert(d.subrange(0, k) == d);
    }
}

/// Parses a decimal number of at most `max`, as `str::parse` does for an
/// unsigned type whose largest value is `max`.
pub fn parse_unsigned(s: &str, max: u64) -> (r: Option<u64>)
    ensures
        r == parse_unsigned_spec(s@, max),
{
    let v = chars_of(s);
    let start: usize = if v.len() > 0 && v[0] == '+' {
        1
    } else {
        0
    };
    let ghost d = unsigned_digits(s@);
    assert(d == v@.subrange(start as int, v@.len() as int));
    if start >= v.len() {
        return None;
    }
    let mut acc: u128 = 0;
    let mut i: usize = start;
    while i < v.len()
        invariant
            start <= i <= v@.len(),
            v@ == s@,
            d == unsigned_digits(s@),
            d == v@.subrange(start as int, v@.len() as int),
            forall|j: int| 0 <= j < i - start ==> is_digit(#[trigger] d[j]),
            acc == digits_value(d.subrange(0, i - start)),
            acc <= max,
            max <= u64::MAX,
        decreases v.len() - i,
    {
        let c = v[i];
        assert(d[i - start] == c);
        if c < '0' || c > '9' {
            assert(!is_digit(d[i - start]));
            return None;
        }
        let ghost pre = d.subrange(0, i - start + 1);
        assert(pre.drop_last() == d.subrange(0, i - start));
        assert(pre.last() == c);
        acc = acc * 10 + ((c as u32) - ('0' as u32)) as u128;
        i = i + 1;
        assert(acc == digits_value(d.subrange(0, i - start)));
        assert forall|j: int| 0 <= j < i - start implies is_digit(#[trigger] d[j]) by {
            if j < i - 1 - start {
            } else {
                assert(d[j] == c);
            }
        }
        if acc > max as u128 {
            proof {
                if forall|j: int| 0 <= j < d.len() ==> is_digit(#[trigger] d[j]) {
                    lemma_digits_value_grows(d, i - start);
                }
            }
            return None;
        }
    }
    assert(d.subrange(0, d.len() as int) == d);
    Some(acc as u64)
}

/// Parses a selector as a tab id, as `str::parse::<u32>` does.
pub fn parse_u32(s: &str) -> (r: Option<u32>)
    ensures
        r == parse_u32_spec(s@),
{
    match parse_unsigned(s, u32::MAX as u64) {
        Some(v) => Some(v as u32),
        None => None,
    }
}

/// The text that a tab offers to selectors: its title and its program name.
pub open spec fn text_matches(t: TabInfo, needle: Seq<char>) -> bool {
    contains_seq(lowercase(t.title@), needle) || contains_seq(
        lowercase(program_name(t@.command)),
        needle,
    )
}

/// Inserts `x` after every element whose id is not above its own, scanning
/// from the end: the stable insertion step of a sort by id.
pub open spec fn insert_by_id(s: Seq<TabInfo>, x: TabInfo) -> Seq<TabInfo>
    decreases s.len(),
{
    if s.len() == 0 {
        seq![x]
    } else if s.last().id <= x.id {
        s.push(x)
    } else {
        insert_by_id(s.drop_last(), x).push(s.last())
    }
}

/// `s` sorted by id, stably (tabs with equal ids keep their order).
pub open spec fn sort_by_id(s: Seq<TabInfo>) -> Seq<TabInfo>
    decreases s.len(),
{
    if s.len() == 0 {
        Seq::empty()
    } else {
        insert_by_id(sort_by_id(s.drop_last()), s.last())
    }
}

/// Ids never decrease along `s`.
pub open spec fn sorted_by_id(s: Seq<TabInfo>) -> bool {
    forall|i: int, j: int| 0 <= i <= j < s.len() ==> s[i].id <= s[j].id
}

/// The tabs whose title or program name contains `needle`, in their order.
pub open spec fn text_hits(tabs: Seq<TabInfo>, needle: Seq<char>) -> Seq<TabInfo> {
    tabs.filter(|t: TabInfo| text_matches(t, needle))
}

/// `k` is the first position of a tab with id `id`.
pub open spec fn first_with_id(tabs: Seq<TabInfo>, id: u32, k: int) -> bool {
    &&& 0 <= k < tabs.len()
    &&& tabs[k].id == id
    &&& forall|j: int| 0 <= j < k ==> tabs[j].id != id
}

/// Some tab has the id that `selector` spells.
pub open spec fn id_selects(tabs: Seq<TabInfo>, selector: Seq<char>) -> bool {
    match parse_u32_spec(selector) {
        Some(id) => exists|k: int| 0 <= k < tabs.len() && tabs[k].id == id,
        None => false,
    }
}

proof fn lemma_insert_at(s: Seq<TabInfo>, x: TabInfo, j: int)
    requires
        0 <= j <= s.len(),
        forall|k: int| j <= k < s.len() ==> s[k].id > x.id,
        j > 0 ==> s[j - 1].id <= x.id,
    ensures
        insert_by_id(s, x) == s.subrange(0, j).push(x) + s.subrange(j, s.len() as int),
    decreases s.len(),
{
    if s.len() == 0 {
        assert(s.subrange(0, j).push(x) + s.subrange(j, s.len() as int) == seq![x]);
    } else if j == s.len() {
        assert(s.subrange(0, j) == s);
        assert(s.subrange(j, s.len() as int) == Seq::<TabInfo>::empty());
        assert(s.push(x) + Seq::<TabInfo>::empty() == s.push(x));
    } else {
        let t = s.drop_last();
        if j > 0 {
            assert(t[j - 1] == s[j - 1]);
        }
        lemma_insert_at(t, x, j);
        assert(t.subrange(0, j) == s.subrange(0, j));
        assert((t.subrange(0, j).push(x) + t.subrange(j, t.len() as int)).push(s.last())
            == s.subrange(0, j).push(x) + s.subrange(j, s.len() as int));
    }
}

proof fn lemma_insert_sorted(s: Seq<TabInfo>, x: TabInfo)
    requires
        sorted_by_id(s),
    ensures
        sorted_by_id(insert_by_id(s, x)),
        insert_by_id(s, x).len() == s.len() + 1,
    decreases s.len(),
{
    if s.len() > 0 && s.last().id > x.id {
        let t = s.drop_last();
        lemma_insert_sorted(t, x);
        let u = insert_by_id(t, x);
        lemma_insert_members(t, x);
        assert forall|i: int, j: int| 0 <= i <= j < u.len() + 1 implies u.push(s.last())[i].id
            <= u.push(s.last())[j].id by {
            if j == u.len() && i < u.len() {
                assert(u[i] == x || t.contains(u[i]));
                if u[i] != x {
                    let k = choose|k: int| 0 <= k < t.len() && t[k] == u[i];
                    assert(s[k] == t[k]);
                }
            }
        }
    }
}

proof fn lemma_insert_members(s: Seq<TabInfo>, x: TabInfo)
    ensures
        forall|i: int|
            0 <= i < insert_by_id(s, x).len() ==> #[trigger] insert_by_id(s, x)[i] == x
                || s.contains(insert_by_id(s, x)[i]),
    decreases s.len(),
{
    if s.len() > 0 && s.last().id > x.id {
        let t = s.drop_last();
        lemma_insert_members(t, x);
        let u = insert_by_id(t, x);
        assert forall|i: int| 0 <= i < u.push(s.last()).len() implies #[trigger] u.push(
            s.last(),
        )[i] == x || s.contains(u.push(s.last())[i]) by {
            if i < u.len() {
                if u[i] != x {
                    let k = choose|k: int| 0 <= k < t.len() && t[k] == u[i];
                    assert(s[k] == t[k]);
                }
            } else {
                assert(s[s.len() - 1] == s.last());
            }
        }
    }
}

/// Sorting law: `sort_by_id` puts its input in id order and keeps its length.
pub proof fn lemma_sort_by_id_sorted(s: Seq<TabInfo>)
    ensures
        sorted_by_id(sort_by_id(s)),
        sort_by_id(s).len() == s.len(),
    decreases s.len(),
{
    if s.len() > 0 {
        lemma_sort_by_id_sorted(s.drop_last());
        lemma_insert_sorted(sort_by_id(s.drop_last()), s.last());
    }
}

/// What [`find_matches`] returns for `selector`.
pub open spec fn find_matches_spec(tabs: Seq<TabInfo>, selector: Seq<char>) -> Seq<TabInfo> {
    if id_selects(tabs, selector) {
        let k = choose|k: int| first_with_id(tabs, parse_u32_spec(selector)->0, k);
        seq![tabs[k]]
    } else {
        sort_by_id(text_hits(tabs, lowercase(selector)))
    }
}

proof fn lemma_insert_contains(s: Seq<TabInfo>, x: TabInfo)
    ensures
        forall|y: TabInfo| #[trigger] insert_by_id(s, x).contains(y) <==> (y == x || s.contains(y)),
    decreases s.len(),
{
    if s.len() == 0 {
        assert(insert_by_id(s, x) == seq![x]);
        assert(seq![x][0] == x);
    } else if s.last().id <= x.id {
        let u = s.push(x);
        assert forall|y: TabInfo| #[trigger] u.contains(y) <==> (y == x || s.contains(y)) by {
            if u.contains(y) {
                let k = choose|k: int| 0 <= k < u.len() && u[k] == y;
                if k < s.len() {
                    assert(s[k] == y);
                }
            }
            if s.contains(y) {
                let k = choose|k: int| 0 <= k < s.len() && s[k] == y;
                assert(u[k] == y);
            }
            if y == x {
                assert(u[s.len() as int] == x);
            }
        }
    } else {
        let t = s.drop_last();
        lemma_insert_contains(t, x);
        let v = insert_by_id(t, x);
        let u = v.push(s.last());
        assert forall|y: TabInfo| #[trigger] u.contains(y) <==> (y == x || s.contains(y)) by {
            if u.contains(y) {
                let k = choose|k: int| 0 <= k < u.len() && u[k] == y;
                if k < v.len() {
                    assert(v[k] == y);
                    assert(v.contains(y));
                    if y != x {
                        let j = choose|j: int| 0 <= j < t.len() && t[j] == y;
                        assert(s[j] == y);
                    }
                } else {
                    assert(s[s.len() - 1] == y);
                }
            }
            if s.contains(y) {
                let k = choose|k: int| 0 <= k < s.len() && s[k] == y;
                if k < s.len() - 1 {
                    assert(t[k] == y);
                    assert(t.contains(y));
                    assert(insert_by_id(t, x).contains(y));
                    assert(v.contains(y));
                    let j = choose|j: int| 0 <= j < v.len() && v[j] == y;
                    assert(u[j] == y);
                } else {
                    assert(u[v.len() as int] == y);
                }
            }
            if y == x {
                assert(v.contains(x));
                let j = choose|j: int| 0 <= j < v.len() && v[j] == x;
                assert(u[j] == x);
            }
        }
    }
}

/// Sorting keeps exactly the elements it was given.
pub proof fn lemma_sort_by_id_contains(s: Seq<TabInfo>)
    ensures
        forall|y: TabInfo| #[trigger] sort_by_id(s).contains(y) <==> s.contains(y),
    decreases s.len(),
{
    if s.len() > 0 {
        let t = s.drop_last();
        lemma_sort_by_id_contains(t);
        lemma_insert_contains(sort_by_id(t), s.last());
        assert forall|y: TabInfo| #[trigger] sort_by_id(s).contains(y) <==> s.contains(y) by {
            if s.contains(y) && y != s.last() {
                let k = choose|k: int| 0 <= k < s.len() && s[k] == y;
                assert(t[k] == y);
            }
            if t.contains(y) {
                let k = choose|k: int| 0 <= k < t.len() && t[k] == y;
                assert(s[k] == y);
            }
            if y == s.last() {
                assert(s[s.len() - 1] == y);
            }
        }
    }
}

/// Selector law: an id that some tab has selects exactly that tab; otherwise
/// the result holds exactly the tabs whose title or program name contains the
/// selector (ignoring case), in id order.
pub proof fn lemma_find_matches_exact(tabs: Seq<TabInfo>, selector: Seq<char>)
    ensures
        id_selects(tabs, selector) ==> find_matches_spec(tabs, selector).len() == 1 && tabs.contains(
            find_matches_spec(tabs, selector)[0],
        ) && find_matches_spec(tabs, selector)[0].id == parse_u32_spec(selector)->0,
        !id_selects(tabs, selector) ==> forall|t: TabInfo|
            #[trigger] find_matches_spec(tabs, selector).contains(t) <==> (tabs.contains(t)
                && text_matches(t, lowercase(selector))),
        sorted_by_id(find_matches_spec(tabs, selector)),
{
    if id_selects(tabs, selector) {
        let id = parse_u32_spec(selector)->0;
        let w = choose|k: int| 0 <= k < tabs.len() && tabs[k].id == id;
        lemma_first_with_id_exists(tabs, id, w);
        let k = choose|k: int| first_with_id(tabs, id, k);
        assert(find_matches_spec(tabs, selector)[0] == tabs[k]);
    } else {
        let needle = lowercase(selector);
        let hits = text_hits(tabs, needle);
        lemma_sort_by_id_contains(hits);
        lemma_sort_by_id_sorted(hits);
        tabs.filter_lemma(|t: TabInfo| text_matches(t, needle));
        assert forall|t: TabInfo| #[trigger] hits.contains(t) <==> (tabs.contains(t)
            && text_matches(t, needle)) by {
            if hits.contains(t) {
                tabs.lemma_filter_contains_rev(|t: TabInfo| text_matches(t, needle), t);
                let k = choose|k: int| 0 <= k < hits.len() && hits[k] == t;
            }
            if tabs.contains(t) && text_matches(t, needle) {
                let k = choose|k: int| 0 <= k < tabs.len() && tabs[k] == t;
                assert(hits.contains(tabs[k]));
            }
        }
    }
}

proof fn lemma_first_with_id_exists(tabs: Seq<TabInfo>, id: u32, w: int)
    requires
        0 <= w < tabs.len(),
        tabs[w].id == id,
    ensures
        exists|k: int| first_with_id(tabs, id, k),
    decreases w,
{
    if exists|j: int| 0 <= j < w && tabs[j].id == id {
        let j = choose|j: int| 0 <= j < w && tabs[j].id == id;
        lemma_first_with_id_exists(tabs, id, j);
    } else {
        assert(first_with_id(tabs, id, w));
    }
}

/// Finds every tab that matches `selector`.
///
/// When `selector` spells the id of an open tab, the result is that tab alone
/// (the first one with that id). Otherwise it is every tab whose title or
/// program name contains the selector, ignoring case, sorted by id. An empty
/// result means no match; more than one entry means the selector was ambiguous.
pub fn find_matches<'a>(tabs: &'a [TabInfo], selector: &str) -> (r: Vec<&'a TabInfo>)
    ensures
        id_selects(tabs@, selector@) ==> exists|k: int|
            first_with_id(tabs@, parse_u32_spec(selector@)->0, k) && r@.map_values(
                |t: &TabInfo| *t,
            ) == seq![tabs@[k]],
        !id_selects(tabs@, selector@) ==> r@.map_values(|t: &TabInfo| *t) == sort_by_id(
            text_hits(tabs@, lowercase(selector@)),
        ),
        sorted_by_id(r@.map_values(|t: &TabInfo| *t)),
        r@.map_values(|t: &TabInfo| *t) == find_matches_spec(tabs@, selector@),
{
    let parsed = parse_u32(selector);
    if let Some(id) = parsed {
        let mut k: usize = 0;
        while k < tabs.len()
            invariant
                k <= tabs@.len(),
                parse_u32_spec(selector@) == Some(id),
                forall|j: int| 0 <= j < k ==> tabs@[j].id != id,
            decreases tabs.len() - k,
        {
            if tabs[k].id == id {
                let mut r: Vec<&'a TabInfo> = Vec::new();
                r.push(&tabs[k]);
                assert(first_with_id(tabs@, id, k as int));
                assert(tabs@[k as int].id == id);
                assert(id_selects(tabs@, selector@));
                proof {
                    let c = choose|c: int| first_with_id(tabs@, id, c);
                    assert(c == k) by {
                        if c < k {
                        } else if c > k {
                        }
                    }
                }
                assert(r@.map_values(|t: &TabInfo| *t) == seq![tabs@[k as int]]);
                return r;
            }
            k = k + 1;
        }
    }
    let needle_string = to_lowercase(selector);
    let needle = chars_of(needle_string.as_str());
    let ghost hits = text_hits(tabs@, lowercase(selector@));
    let mut r: Vec<&'a TabInfo> = Vec::new();
    let mut i: usize = 0;
    while i < tabs.len()
        invariant
            i <= tabs@.len(),
            needle@ == lowercase(selector@),
            hits == text_hits(tabs@, lowercase(selector@)),
            r@.map_values(|t: &TabInfo| *t) == sort_by_id(
                tabs@.subrange(0, i as int).filter(|t: TabInfo| text_matches(t, needle@)),
            ),
        decreases tabs.len() - i,
    {
        let t: &'a TabInfo = &tabs[i];
        let title = chars_of(to_lowercase(t.title.as_str()).as_str());
        let prog = chars_of(to_lowercase(t.program()).as_str());
        let hit = contains_chars(&title, &needle) || contains_chars(&prog, &needle);
        let ghost before = tabs@.subrange(0, i as int);
        let ghost after = tabs@.subrange(0, i + 1);
        let ghost pred = |t: TabInfo| text_matches(t, needle@);
        assert(after.drop_last() == before);
        assert(after.filter(pred) == if pred(tabs@[i as int]) {
            before.filter(pred).push(tabs@[i as int])
        } else {
            before.filter(pred)
        }) by {
            reveal(Seq::filter);
        }
        if hit {
            let ghost old_view = r@.map_values(|t: &TabInfo| *t);
            let ghost old_hits = before.filter(pred);
            assert(old_hits.push(*t).drop_last() == old_hits);
            assert(old_view == sort_by_id(old_hits));
            let mut j: usize = r.len();
            while j > 0 && r[j - 1].id > t.id
                invariant
                    old_view == r@.map_values(|t: &TabInfo| *t),
                    j <= r@.len(),
                    forall|k: int| j <= k < r@.len() ==> r@[k].id > t.id,
                decreases j,
            {
                j = j - 1;
            }
            proof {
                lemma_insert_at(old_view, *t, j as int);
            }
            r.insert(j, t);
            assert(r@.map_values(|t: &TabInfo| *t) == old_view.subrange(0, j as int).push(*t)
                + old_view.subrange(j as int, old_view.len() as int));
        }
        i = i + 1;
    }
    assert(tabs@.subrange(0, tabs@.len() as int) == tabs@);
    proof {
        lemma_sort_by_id_sorted(hits);
    }
    r
}

/// Inserts `x` into `v` after every element whose id is not above its own,
/// scanning from the end.
fn insert_tab_by_id(v: &mut Vec<TabInfo>, x: TabInfo)
    ensures
        final(v)@ == insert_by_id(old(v)@, x),
{
    let mut j: usize = v.len();
    while j > 0 && v[j - 1].id > x.id
        invariant
            j <= v@.len(),
            forall|k: int| j <= k < v@.len() ==> v@[k].id > x.id,
        decreases j,
    {
        j = j - 1;
    }
    proof {
        lemma_insert_at(v@, x, j as int);
    }
    v.insert(j, x);
    assert(v@ == old(v)@.subrange(0, j as int).push(x) + old(v)@.subrange(
        j as int,
        old(v)@.len() as int,
    ));
}

/// `v` sorted by id, stably.
pub fn sort_tabs_by_id(v: Vec<TabInfo>) -> (r: Vec<TabInfo>)
    ensures
        r@ == sort_by_id(v@),
{
    let ghost orig = v@;
    let mut rest = v;
    let n = rest.len();
    let mut r: Vec<TabInfo> = Vec::new();
    let mut k: usize = 0;
    while rest.len() > 0
        invariant
            n == orig.len(),
            k + rest@.len() == orig.len(),
            rest@ == orig.subrange(k as int, orig.len() as int),
            r@ == sort_by_id(orig.subrange(0, k as int)),
        decreases rest.len(),
    {
        let x = rest.remove(0);
        assert(orig.subrange(0, k + 1).drop_last() == orig.subrange(0, k as int));
        insert_tab_by_id(&mut r, x);
        k = k + 1;
        assert(rest@ == orig.subrange(k as int, orig.len() as int));
    }
    assert(orig.subrange(0, orig.len() as int) == orig);
    r
}

} // verus!
