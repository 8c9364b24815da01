use vstd::prelude::*;
use vstd::string::StringExecFns;

use crate::error::WebError;
use crate::json::{spec_as_u64, spec_get, Json};
use crate::text::{
    decimal, lemma_lex_asymmetric, lemma_lex_irreflexive, lemma_lex_total, lemma_lex_transitive,
    lex_lt, opt_text, push_decimal, str_eq, str_less,
};

verus! {

/// The page size used when a request names none.
pub const DEFAULT_PAGE_SIZE: u64 = 25;

/// The record tags that the records page can show.
pub const ALLOWED_TAGS: [&'static str; 5] = ["history", "kv", "config-shell-alias", "dotfiles-var", "script"];

/// `tag` is one of the record tags that the records page can show.
pub open spec fn is_allowed_tag_spec(tag: Seq<char>) -> bool {
    ||| tag == "history"@
    ||| tag == "kv"@
    ||| tag == "config-shell-alias"@
    ||| tag == "dotfiles-var"@
    ||| tag == "script"@
}

/// The heading shown for a record tag.
pub open spec fn tag_label_spec(tag: Seq<char>) -> Seq<char> {
    if tag == "history"@ {
        "History"@
    } else if tag == "kv"@ {
        "Key-Value"@
    } else if tag == "config-shell-alias"@ {
        "Aliases"@
    } else if tag == "dotfiles-var"@ {
        "Variables"@
    } else if tag == "script"@ {
        "Scripts"@
    } else {
        "Records"@
    }
}

/// Whether `tag` is one of `ALLOWED_TAGS`.
pub fn is_allowed_tag(tag: &str) -> (r: bool)
    ensures
        r == is_allowed_tag_spec(tag@),
{
    str_eq(tag, "history") || str_eq(tag, "kv") || str_eq(tag, "config-shell-alias") || str_eq(
        tag,
        "dotfiles-var",
    ) || str_eq(tag, "script")
}

/// The heading shown for a record tag; "Records" for any other text.
pub fn tag_label(tag: &str) -> (r: &'static str)
    ensures
        r@ == tag_label_spec(tag@),
{
    if str_eq(tag, "history") {
        "History"
    } else if str_eq(tag, "kv") {
        "Key-Value"
    } else if str_eq(tag, "config-shell-alias") {
        "Aliases"
    } else if str_eq(tag, "dotfiles-var") {
        "Variables"
    } else if str_eq(tag, "script") {
        "Scripts"
    } else {
        "Records"
    }
}

/// `x` read as an `i64`, the way `x as i64` reads it (two's complement).
pub open spec fn as_signed(x: u64) -> int {
    if x <= i64::MAX {
        x as int
    } else {
        x - 0x1_0000_0000_0000_0000int
    }
}

/// How far the allowed page size `allowed` lies from the requested `size`:
/// `|allowed - size|`, with `size` read as an `i64`.
pub open spec fn size_distance(allowed: int, size: u64) -> int {
    let d = allowed - as_signed(size);
    if d < 0 {
        -d
    } else {
        d
    }
}

/// Measuring that distance does not overflow an `i64`: it does for the 101
/// sizes just above `i64::MAX`.
pub open spec fn page_size_measurable(size: u64) -> bool {
    !(0x8000_0000_0000_0000u64 <= size <= 0x8000_0000_0000_0064u64)
}

/// The allowed page size (25, 50 or 100) nearest to `size`, the smaller one
/// on a tie.
pub open spec fn nearest_page_size(size: u64) -> u64 {
    let d25 = size_distance(25, size);
    let d50 = size_distance(50, size);
    let d100 = size_distance(100, size);
    if d25 <= d50 && d25 <= d100 {
        25
    } else if d50 <= d100 {
        50
    } else {
        100
    }
}

fn distance_to(allowed: u64, size: u64) -> (r: u64)
    requires
        allowed == 25 || allowed == 50 || allowed == 100,
        page_size_measurable(size),
    ensures
        r == size_distance(allowed as int, size),
{
    if size <= 9223372036854775807u64 {
        if size >= allowed {
            size - allowed
        } else {
            allowed - size
        }
    } else {
        allowed + (18446744073709551615u64 - size) + 1
    }
}

/// Snaps a requested page size to the nearest allowed one (25, 50 or 100).
pub fn clamp_page_size(size: u64) -> (r: u64)
    requires
        page_size_measurable(size),
    ensures
        r == nearest_page_size(size),
{
    let d25 = distance_to(25, size);
    let d50 = distance_to(50, size);
    let d100 = distance_to(100, size);
    if d25 <= d50 && d25 <= d100 {
        25
    } else if d50 <= d100 {
        50
    } else {
        100
    }
}

/// What the records page shows of its position among the pages.
#[derive(Debug)]
pub struct PaginationInfo {
    pub current_page: u64,
    pub total_pages: u64,
    pub total_records: u64,
    pub page_size: u64,
    pub has_prev: bool,
    pub has_next: bool,
    pub prev_page: u64,
    pub next_page: u64,
    pub page_numbers: Vec<u64>,
    pub page_sizes: Vec<u64>,
}

/// The number of pages that `total_records` fill, `page_size` to a page; one
/// page when there is no record.
pub open spec fn total_pages_for(total_records: u64, page_size: u64) -> int {
    if total_records == 0 {
        1
    } else {
        total_records / page_size + if total_records % page_size == 0 {
            0int
        } else {
            1int
        }
    }
}

/// `page` brought into `1..=total_pages`.
pub open spec fn current_page_for(page: u64, total_pages: int) -> int {
    let p = if page < 1 {
        1
    } else {
        page as int
    };
    if p > total_pages {
        total_pages
    } else {
        p
    }
}

/// The first and last page number of the window of up to five page links
/// around `current`.
pub open spec fn page_window(current: int, total_pages: int) -> (int, int) {
    if total_pages <= 5 {
        (1, total_pages)
    } else if current <= 3 {
        (1, 5)
    } else if current + 2 >= total_pages {
        (total_pages - 4, total_pages)
    } else {
        (current - 2, current + 2)
    }
}

/// The page numbers from `first` to `last`.
pub open spec fn page_range(first: int, last: int) -> Seq<u64> {
    Seq::new((last - first + 1) as nat, |i: int| (first + i) as u64)
}

/// `p` describes `page` of `total_records` records, `page_size` to a page:
/// the size snapped to an allowed one, the page brought into range, and a
/// window of up to five page links around it.
pub open spec fn pagination_for(p: PaginationInfo, page: u64, total_records: u64, page_size: u64) -> bool {
    &&& p.page_size == nearest_page_size(page_size)
    &&& p.total_records == total_records
    &&& p.total_pages == total_pages_for(total_records, p.page_size)
    &&& p.current_page == current_page_for(page, p.total_pages as int)
    &&& p.has_prev == (p.current_page > 1)
    &&& p.has_next == (p.current_page < p.total_pages)
    &&& p.prev_page == if p.current_page > 1 {
        p.current_page - 1
    } else {
        1
    }
    &&& p.next_page == if p.current_page < p.total_pages {
        p.current_page + 1
    } else {
        p.total_pages as int
    }
    &&& p.page_numbers@ == page_range(
        page_window(p.current_page as int, p.total_pages as int).0,
        page_window(p.current_page as int, p.total_pages as int).1,
    )
    &&& p.page_sizes@ == seq![25u64, 50u64, 100u64]
}

/// What a reader of the page sees of `p`, showing `page` of `total_records`
/// records: a page size of 25, 50 or 100; as many pages as it takes to hold
/// the records, and one when there is none; the page shown among them (the
/// one asked for, when there is such a page); a previous link exactly when
/// the page is not the first, a next link exactly when it is not the last,
/// each to the neighbouring page; and links to up to five consecutive pages
/// around the page shown.
pub open spec fn pagination_links(p: PaginationInfo, page: u64, total_records: u64) -> bool {
    let n = p.page_numbers@;
    &&& p.page_size == 25 || p.page_size == 50 || p.page_size == 100
    &&& p.total_records == total_records
    &&& total_records == 0 ==> p.total_pages == 1
    &&& total_records > 0 ==> (p.total_pages - 1) * p.page_size < total_records <= p.total_pages
        * p.page_size
    &&& 1 <= p.current_page <= p.total_pages
    &&& 1 <= page <= p.total_pages ==> p.current_page == page
    &&& page == 0 ==> p.current_page == 1
    &&& page > p.total_pages ==> p.current_page == p.total_pages
    &&& p.has_prev <==> p.current_page != 1
    &&& p.has_prev ==> p.prev_page + 1 == p.current_page
    &&& !p.has_prev ==> p.prev_page == 1
    &&& p.has_next <==> p.current_page != p.total_pages
    &&& p.has_next ==> p.next_page == p.current_page + 1 && p.next_page <= p.total_pages
    &&& !p.has_next ==> p.next_page == p.total_pages
    &&& n.len() == if p.total_pages < 5 {
        p.total_pages as int
    } else {
        5
    }
    &&& n.contains(p.current_page)
    &&& forall|k: int| 0 <= k < n.len() ==> #[trigger] n[k] == n[0] + k
    &&& forall|k: int| 0 <= k < n.len() ==> 1 <= #[trigger] n[k] <= p.total_pages
}

/// Paginating `total_records` records, `page_size` to a page, shows the page
/// asked for when there is such a page, the first or last page otherwise;
/// links to the previous page exactly when the page shown is not the first,
/// to the next exactly when it is not the last; and holds every record in as
/// few pages of the snapped size as will hold them.
pub proof fn lemma_pagination_links(p: PaginationInfo, page: u64, total_records: u64, page_size: u64)
    requires
        pagination_for(p, page, total_records, page_size),
    ensures
        pagination_links(p, page, total_records),
{
    lemma_clamp_page_size_idempotent(page_size);
    lemma_total_pages_bounds(total_records, p.page_size);
    lemma_pagination_window(page, total_records, p.page_size);
    let (first, last) = page_window(p.current_page as int, p.total_pages as int);
    let n = p.page_numbers@;
    assert(n[p.current_page - first] == p.current_page);
}

/// Where `page` of `total_records` lies, with `page_size` snapped to an
/// allowed size and the page brought into range.
pub fn calculate_pagination(page: u64, total_records: u64, page_size: u64) -> (r: PaginationInfo)
    requires
        page_size_measurable(page_size),
    ensures
        pagination_for(r, page, total_records, page_size),
        pagination_links(r, page, total_records),
{
    let requested_size = page_size;
    let page_size = clamp_page_size(page_size);
    assert(total_records / page_size <= total_records / 2) by (nonlinear_arith)
        requires
            page_size >= 25,
    ;
    let total_pages: u64 = if total_records == 0 {
        1
    } else {
        total_records / page_size + if total_records % page_size == 0 {
            0u64
        } else {
            1u64
        }
    };
    assert(total_pages >= 1);
    let p = if page < 1 {
        1
    } else {
        page
    };
    let current_page = if p > total_pages {
        total_pages
    } else {
        p
    };
    let window_size: u64 = 5;
    let half = window_size / 2;
    let (win_start, win_end): (u64, u64) = if total_pages <= window_size {
        (1, total_pages)
    } else if current_page <= half + 1 {
        (1, window_size)
    } else if current_page + half >= total_pages {
        (total_pages - window_size + 1, total_pages)
    } else {
        (current_page - half, current_page + half)
    };
    let mut page_numbers: Vec<u64> = Vec::new();
    let mut n = win_start;
    while n <= win_end
        invariant
            1 <= win_start <= n,
            n <= win_end + 1,
            win_end <= total_pages,
            total_pages < 0xffff_ffff_ffff_ffffu64,
            page_numbers@ == page_range(win_start as int, n - 1),
        decreases win_end + 1 - n,
    {
        page_numbers.push(n);
        assert(page_numbers@ =~= page_range(win_start as int, n as int));
        n = n + 1;
    }
    let mut page_sizes: Vec<u64> = Vec::new();
    page_sizes.push(25);
    page_sizes.push(50);
    page_sizes.push(100);
    assert(page_sizes@ =~= seq![25u64, 50u64, 100u64]);
    let info = PaginationInfo {
        current_page,
        total_pages,
        total_records,
        page_size,
        has_prev: current_page > 1,
        has_next: current_page < total_pages,
        prev_page: if current_page > 1 {
            current_page - 1
        } else {
            1
        },
        next_page: if current_page < total_pages {
            current_page + 1
        } else {
            total_pages
        },
        page_numbers,
        page_sizes,
    };
    proof {
        lemma_pagination_links(info, page, total_records, requested_size);
    }
    info
}


/// The number whose two's complement bit pattern `x` (an `i64`'s range) is
/// as a `u64`, the way `x as u64` reads it.
pub open spec fn as_unsigned(x: int) -> int {
    if x >= 0 {
        x
    } else {
        x + 0x1_0000_0000_0000_0000int
    }
}

/// Counting back `page` pages of `page_size` from `total_records` overflows
/// neither the `u64` product nor the `i64` differences.
pub open spec fn reverse_window_defined(page: u64, total_records: u64, page_size: u64) -> bool {
    let product = page * page_size;
    let reverse_start = as_signed(total_records) - as_signed(product as u64);
    &&& product <= u64::MAX
    &&& i64::MIN <= reverse_start <= i64::MAX
    &&& reverse_start < 0 ==> i64::MIN <= as_signed(page_size) + reverse_start <= i64::MAX
}

/// The first record index and the number of records of `page`, counting
/// pages back from the newest record: page 1 ends at the last record.
pub open spec fn reverse_window_spec(page: u64, total_records: u64, page_size: u64) -> (u64, u64) {
    let reverse_start = as_signed(total_records) - as_signed((page * page_size) as u64);
    if reverse_start < 0 {
        (0, as_unsigned(as_signed(page_size) + reverse_start) as u64)
    } else {
        (reverse_start as u64, page_size)
    }
}

fn signed_wide(x: u64) -> (r: i128)
    ensures
        r == as_signed(x),
{
    if x <= 9223372036854775807u64 {
        x as i128
    } else {
        x as i128 - 0x1_0000_0000_0000_0000i128
    }
}

/// The (start, count) window for reverse pagination: page 1 holds the
/// highest-index records, and the pages run down towards index 0.
pub fn reverse_pagination_window(page: u64, total_records: u64, page_size: u64) -> (r: (u64, u64))
    requires
        reverse_window_defined(page, total_records, page_size),
    ensures
        r == reverse_window_spec(page, total_records, page_size),
{
    let product = page * page_size;
    let reverse_start: i128 = signed_wide(total_records) - signed_wide(product);
    if reverse_start < 0 {
        let c: i128 = signed_wide(page_size) + reverse_start;
        let count: u64 = if c >= 0 {
            c as u64
        } else {
            (c + 0x1_0000_0000_0000_0000i128) as u64
        };
        (0, count)
    } else {
        (reverse_start as u64, page_size)
    }
}

/// Whether `reverse_pagination_window` is defined on these arguments.
pub fn reverse_window_fits(page: u64, total_records: u64, page_size: u64) -> (r: bool)
    ensures
        r == reverse_window_defined(page, total_records, page_size),
{
    assert(page as int * page_size as int <= u64::MAX as int * u64::MAX as int) by (nonlinear_arith);
    let product: u128 = page as u128 * page_size as u128;
    if product > 18446744073709551615u128 {
        return false;
    }
    let reverse_start: i128 = signed_wide(total_records) - signed_wide(product as u64);
    if reverse_start < -9223372036854775808i128 || reverse_start > 9223372036854775807i128 {
        return false;
    }
    if reverse_start < 0 {
        let c: i128 = signed_wide(page_size) + reverse_start;
        c >= -9223372036854775808i128 && c <= 9223372036854775807i128
    } else {
        true
    }
}


/// A host that holds records of the selected tag, with how many it holds.
#[derive(Debug)]
pub struct HostOption {
    pub id: String,
    pub total_records: u64,
}

impl View for HostOption {
    type V = (Seq<char>, u64);

    open spec fn view(&self) -> (Seq<char>, u64) {
        (self.id@, self.total_records)
    }
}

/// What a list of host options says: each host's id and count.
pub open spec fn option_views(options: Seq<HostOption>) -> Seq<(Seq<char>, u64)> {
    options.map_values(|o: HostOption| o@)
}

/// The highest record index that a host's tag counts report for `tag`.
pub open spec fn tag_index(tags: Json, tag: Seq<char>) -> Option<u64> {
    match spec_get(tags, tag) {
        Some(v) => spec_as_u64(v),
        None => None,
    }
}

/// No host reports `u64::MAX` as its highest index of `tag`, so that the
/// count of its records, one more, is a `u64`.
pub open spec fn host_counts_fit(hosts: Seq<(String, Json)>, tag: Seq<char>) -> bool {
    forall|i: int| 0 <= i < hosts.len() ==> tag_index(#[trigger] hosts[i].1, tag) != Some(u64::MAX)
}

/// The hosts holding records of `tag`, in the order given, each with its
/// number of records (the highest index plus one).
pub open spec fn host_candidates(hosts: Seq<(String, Json)>, tag: Seq<char>) -> Seq<(Seq<char>, u64)>
    decreases hosts.len(),
{
    if hosts.len() == 0 {
        seq![]
    } else {
        let rest = host_candidates(hosts.drop_last(), tag);
        match tag_index(hosts.last().1, tag) {
            Some(idx) => rest.push((hosts.last().0@, (idx + 1) as u64)),
            None => rest,
        }
    }
}

/// The option `o` is what `host` reports of `tag`: the host's id, and one
/// more than the integer that its tag counts hold under the key `tag`.
pub open spec fn reads_tag_count(host: (String, Json), tag: Seq<char>, o: (Seq<char>, u64)) -> bool {
    &&& o.0 == host.0@
    &&& spec_get(host.1, tag) matches Some(v)
    &&& spec_as_u64(v) matches Some(n)
    &&& o.1 == n + 1
}

/// `host` holds an integer under the key `tag` of its tag counts.
pub open spec fn holds_tag_count(host: (String, Json), tag: Seq<char>) -> bool {
    &&& spec_get(host.1, tag) matches Some(v)
    &&& spec_as_u64(v) is Some
}

/// Each candidate is read from the requested tag of one of the hosts, and
/// every host that holds an integer under that tag is a candidate, with one
/// more than that integer as its count.
pub proof fn lemma_host_candidates_read_tag(hosts: Seq<(String, Json)>, tag: Seq<char>)
    requires
        host_counts_fit(hosts, tag),
    ensures
        forall|o: (Seq<char>, u64)|
            #[trigger] host_candidates(hosts, tag).contains(o) ==> exists|i: int|
                0 <= i < hosts.len() && #[trigger] reads_tag_count(hosts[i], tag, o),
        forall|i: int|
            0 <= i < hosts.len() && #[trigger] holds_tag_count(hosts[i], tag) ==> exists|k: int|
                0 <= k < host_candidates(hosts, tag).len() && reads_tag_count(
                    hosts[i],
                    tag,
                    #[trigger] host_candidates(hosts, tag)[k],
                ),
    decreases hosts.len(),
{
    if hosts.len() > 0 {
        let init = hosts.drop_last();
        let last = hosts.len() - 1;
        assert forall|i: int| 0 <= i < init.len() implies tag_index(#[trigger] init[i].1, tag) != Some(
            u64::MAX,
        ) by {
            assert(init[i] == hosts[i]);
        }
        lemma_host_candidates_read_tag(init, tag);
        let rest = host_candidates(init, tag);
        let c = host_candidates(hosts, tag);
        assert(tag_index(hosts[last].1, tag) != Some(u64::MAX));
        assert forall|o: (Seq<char>, u64)| #[trigger] c.contains(o) implies exists|i: int|
            0 <= i < hosts.len() && #[trigger] reads_tag_count(hosts[i], tag, o) by {
            let k = choose|k: int| 0 <= k < c.len() && c[k] == o;
            if k < rest.len() {
                assert(rest.contains(rest[k]));
                assert(c[k] == rest[k]);
                let i = choose|i: int| 0 <= i < init.len() && #[trigger] reads_tag_count(init[i], tag, rest[k]);
                assert(reads_tag_count(init[i], tag, rest[k]));
                assert(init[i] == hosts[i]);
                assert(reads_tag_count(hosts[i], tag, c[k]));
            } else {
                assert(reads_tag_count(hosts[last], tag, c[k]));
            }
        }
        assert forall|i: int| 0 <= i < hosts.len() && #[trigger] holds_tag_count(hosts[i], tag) implies exists|k: int|
            0 <= k < c.len() && reads_tag_count(hosts[i], tag, #[trigger] c[k]) by {
            if i < init.len() {
                assert(init[i] == hosts[i]);
                assert(holds_tag_count(init[i], tag));
                let k = choose|k: int| 0 <= k < rest.len() && reads_tag_count(init[i], tag, #[trigger] rest[k]);
                assert(c[k] == rest[k]);
            } else {
                assert(c[rest.len() as int] == c.last());
                assert(reads_tag_count(hosts[i], tag, c[rest.len() as int]));
            }
        }
    }
}

/// Each of `options` is read from the requested tag of one of `hosts`, and
/// every host that holds an integer under that tag has its option.
pub open spec fn options_read_tag(options: Seq<HostOption>, hosts: Seq<(String, Json)>, tag: Seq<char>) -> bool {
    &&& forall|o: (Seq<char>, u64)|
        #[trigger] option_views(options).contains(o) ==> exists|i: int|
            0 <= i < hosts.len() && #[trigger] reads_tag_count(hosts[i], tag, o)
    &&& forall|i: int|
        0 <= i < hosts.len() && #[trigger] holds_tag_count(hosts[i], tag) ==> exists|k: int|
            0 <= k < options.len() && reads_tag_count(hosts[i], tag, (#[trigger] options[k])@)
}

/// The candidates depend on each host's id and its entry under `tag` alone:
/// hosts that differ only in their other tags give the same candidates.
pub proof fn lemma_host_candidates_other_tags(
    hosts: Seq<(String, Json)>,
    other: Seq<(String, Json)>,
    tag: Seq<char>,
)
    requires
        hosts.len() == other.len(),
        forall|i: int|
            0 <= i < hosts.len() ==> (#[trigger] hosts[i]).0@ == other[i].0@ && spec_get(
                hosts[i].1,
                tag,
            ) == spec_get(other[i].1, tag),
    ensures
        host_candidates(hosts, tag) == host_candidates(other, tag),
    decreases hosts.len(),
{
    if hosts.len() > 0 {
        let last = hosts.len() - 1;
        assert(hosts[last].0@ == other[last].0@);
        assert forall|i: int| 0 <= i < hosts.drop_last().len() implies (
        #[trigger] hosts.drop_last()[i]).0@ == other.drop_last()[i].0@ && spec_get(
            hosts.drop_last()[i].1,
            tag,
        ) == spec_get(other.drop_last()[i].1, tag) by {
            assert(hosts[i].0@ == other[i].0@);
        }
        lemma_host_candidates_other_tags(hosts.drop_last(), other.drop_last(), tag);
    }
}

/// `a` may stand before `b`: more records first, then ids in order.
pub open spec fn host_precedes(a: (Seq<char>, u64), b: (Seq<char>, u64)) -> bool {
    a.1 > b.1 || (a.1 == b.1 && !lex_lt(b.0, a.0))
}

/// `a` must stand before `b`.
pub open spec fn host_strictly_precedes(a: (Seq<char>, u64), b: (Seq<char>, u64)) -> bool {
    a.1 > b.1 || (a.1 == b.1 && lex_lt(a.0, b.0))
}

/// Largest first, ties broken by id.
pub open spec fn hosts_in_order(s: Seq<(Seq<char>, u64)>) -> bool {
    forall|i: int, j: int| 0 <= i < j < s.len() ==> host_precedes(#[trigger] s[i], #[trigger] s[j])
}

proof fn lemma_precedes_total(a: (Seq<char>, u64), b: (Seq<char>, u64))
    requires
        !host_strictly_precedes(a, b),
    ensures
        host_precedes(b, a),
{
    if a.1 == b.1 {
        lemma_lex_total(a.0, b.0);
        if a.0 == b.0 {
            lemma_lex_irreflexive(a.0);
        }
    }
}

proof fn lemma_precedes_transitive(a: (Seq<char>, u64), b: (Seq<char>, u64), c: (Seq<char>, u64))
    requires
        host_precedes(a, b),
        host_precedes(b, c),
    ensures
        host_precedes(a, c),
{
    if a.1 == b.1 && b.1 == c.1 && lex_lt(c.0, a.0) {
        lemma_lex_total(c.0, b.0);
        if c.0 == b.0 {
            assert(lex_lt(b.0, a.0));
        } else if lex_lt(b.0, c.0) {
            lemma_lex_transitive(b.0, c.0, a.0);
        }
    }
}

proof fn lemma_strict_implies_precedes(a: (Seq<char>, u64), b: (Seq<char>, u64))
    requires
        host_strictly_precedes(a, b),
    ensures
        host_precedes(a, b),
{
    if a.1 == b.1 {
        lemma_lex_asymmetric(a.0, b.0);
    }
}

/// Whether every host's highest index of `tag` leaves room for the count.
pub fn host_counts_in_range(hosts: &Vec<(String, Json)>, tag: &str) -> (r: bool)
    ensures
        r == host_counts_fit(hosts@, tag@),
{
    let n = hosts.len();
    let mut i: usize = 0;
    while i < n
        invariant
            n == hosts@.len(),
            i <= n,
            forall|j: int| 0 <= j < i ==> tag_index(#[trigger] hosts@[j].1, tag@) != Some(u64::MAX),
        decreases n - i,
    {
        if let Some(v) = hosts[i].1.get(tag) {
            if let Some(idx) = v.as_u64() {
                if idx == 18446744073709551615u64 {
                    return false;
                }
            }
        }
        i = i + 1;
    }
    true
}

/// Where `opt` goes among `out`, kept in order: before the first option that
/// it must precede.
fn insert_position(out: &Vec<HostOption>, opt: &HostOption) -> (p: usize)
    ensures
        p <= out@.len(),
        forall|k: int| 0 <= k < p ==> !host_strictly_precedes(opt@, #[trigger] out@[k]@),
        p < out@.len() ==> host_strictly_precedes(opt@, out@[p as int]@),
{
    let n = out.len();
    let mut k: usize = 0;
    while k < n
        invariant
            n == out@.len(),
            k <= n,
            forall|j: int| 0 <= j < k ==> !host_strictly_precedes(opt@, #[trigger] out@[j]@),
        decreases n - k,
    {
        let o = &out[k];
        if opt.total_records > o.total_records || (opt.total_records == o.total_records && str_less(
            opt.id.as_str(),
            o.id.as_str(),
        )) {
            return k;
        }
        k = k + 1;
    }
    n
}

/// Every host that holds records of `tag`, with how many it holds (the
/// index the API reports, plus one), largest first, ties broken by id.
pub fn host_options(hosts: &Vec<(String, Json)>, tag: &str) -> (r: Vec<HostOption>)
    requires
        host_counts_fit(hosts@, tag@),
    ensures
        hosts_in_order(option_views(r@)),
        forall|k: int| 0 <= k < r@.len() ==> (#[trigger] r@[k]).total_records >= 1,
        option_views(r@).to_multiset() == host_candidates(hosts@, tag@).to_multiset(),
        options_read_tag(r@, hosts@, tag@),
        forall|a: int, b: int|
            0 <= a < b < r@.len() ==> (#[trigger] r@[a]).total_records >= (
            #[trigger] r@[b]).total_records && (r@[a].total_records == r@[b].total_records
                ==> !lex_lt(r@[b].id@, r@[a].id@)),
{
    broadcast use vstd::seq_lib::group_to_multiset_ensures;

    let out = host_options_sorted(hosts, tag);
    proof {
        let views = option_views(out@);
        assert forall|a: int, b: int| 0 <= a < b < out@.len() implies (
        #[trigger] out@[a]).total_records >= (#[trigger] out@[b]).total_records && (
        out@[a].total_records == out@[b].total_records ==> !lex_lt(out@[b].id@, out@[a].id@)) by {
            assert(views[a] == out@[a]@ && views[b] == out@[b]@);
            assert(host_precedes(views[a], views[b]));
        }
    }
    proof {
        let views = option_views(out@);
        let c = host_candidates(hosts@, tag@);
        lemma_host_candidates_read_tag(hosts@, tag@);
        assert forall|o: (Seq<char>, u64)| #[trigger] views.contains(o) implies exists|i: int|
            0 <= i < hosts@.len() && #[trigger] reads_tag_count(hosts@[i], tag@, o) by {
            assert(views.to_multiset().count(o) > 0);
            assert(c.contains(o));
        }
        assert forall|i: int| 0 <= i < hosts@.len() && #[trigger] holds_tag_count(hosts@[i], tag@) implies exists|k: int|
            0 <= k < out@.len() && reads_tag_count(hosts@[i], tag@, (#[trigger] out@[k])@) by {
            let j = choose|j: int| 0 <= j < c.len() && reads_tag_count(hosts@[i], tag@, #[trigger] c[j]);
            assert(c.to_multiset().count(c[j]) > 0);
            assert(views.contains(c[j]));
            let k = choose|k: int| 0 <= k < views.len() && views[k] == c[j];
            assert(views[k] == out@[k]@);
        }
    }
    out
}

/// The options for `tag`, largest first, ties broken by id, holding the same
/// ids and counts as the candidates.
fn host_options_sorted(hosts: &Vec<(String, Json)>, tag: &str) -> (r: Vec<HostOption>)
    requires
        host_counts_fit(hosts@, tag@),
    ensures
        hosts_in_order(option_views(r@)),
        forall|k: int| 0 <= k < r@.len() ==> (#[trigger] r@[k]).total_records >= 1,
        option_views(r@).to_multiset() == host_candidates(hosts@, tag@).to_multiset(),
{
    broadcast use vstd::seq_lib::group_to_multiset_ensures;

    let n = hosts.len();
    let mut out: Vec<HostOption> = Vec::new();
    let mut i: usize = 0;
    assert(hosts@.take(0) =~= Seq::<(String, Json)>::empty());
    assert(option_views(out@) =~= Seq::<(Seq<char>, u64)>::empty());
    while i < n
        invariant
            n == hosts@.len(),
            i <= n,
            host_counts_fit(hosts@, tag@),
            hosts_in_order(option_views(out@)),
            forall|k: int| 0 <= k < out@.len() ==> (#[trigger] out@[k]).total_records >= 1,
            option_views(out@).to_multiset() == host_candidates(
                hosts@.take(i as int),
                tag@,
            ).to_multiset(),
        decreases n - i,
    {
        let ghost before = option_views(out@);
        assert(hosts@.take(i + 1).drop_last() =~= hosts@.take(i as int));
        assert(hosts@.take(i + 1).last() == hosts@[i as int]);
        let entry = &hosts[i];
        let found = match entry.1.get(tag) {
            Some(v) => v.as_u64(),
            None => None,
        };
        match found {
            Some(idx) => {
                assert(tag_index(hosts@[i as int].1, tag@) != Some(u64::MAX));
                let opt = HostOption { id: entry.0.clone(), total_records: idx + 1 };
                let p = insert_position(&out, &opt);
                out.insert(p, opt);
                let ghost after = option_views(out@);
                assert(after =~= before.insert(p as int, opt@));
                proof {
                    vstd::seq_lib::to_multiset_insert(before, p as int, opt@);
                    vstd::seq_lib::to_multiset_build(
                        host_candidates(hosts@.take(i as int), tag@),
                        opt@,
                    );
                }
                assert(host_candidates(hosts@.take(i + 1), tag@) == host_candidates(
                    hosts@.take(i as int),
                    tag@,
                ).push(opt@));
                assert forall|a: int, b: int| 0 <= a < b < after.len() implies host_precedes(
                    #[trigger] after[a],
                    #[trigger] after[b],
                ) by {
                    if b < p {
                        assert(after[a] == before[a] && after[b] == before[b]);
                    } else if b == p {
                        assert(after[a] == before[a]);
                        lemma_precedes_total(opt@, before[a]);
                    } else if a == p {
                        assert(after[b] == before[b - 1]);
                        lemma_strict_implies_precedes(opt@, before[p as int]);
                        if b - 1 > p {
                            lemma_precedes_transitive(opt@, before[p as int], before[b - 1]);
                        }
                    } else if a < p {
                        assert(after[a] == before[a] && after[b] == before[b - 1]);
                    } else {
                        assert(after[a] == before[a - 1] && after[b] == before[b - 1]);
                    }
                }
            },
            None => {
                assert(host_candidates(hosts@.take(i + 1), tag@) == host_candidates(
                    hosts@.take(i as int),
                    tag@,
                ));
            },
        }
        i = i + 1;
    }
    assert(hosts@.take(n as int) =~= hosts@);
    out
}

/// The first option whose id is `id`.
pub open spec fn find_host(options: Seq<(Seq<char>, u64)>, id: Seq<char>) -> Option<(Seq<char>, u64)>
    decreases options.len(),
{
    if options.len() == 0 {
        None
    } else if options[0].0 == id {
        Some(options[0])
    } else {
        find_host(options.drop_first(), id)
    }
}

/// The host to display: the requested one when it holds records, else the
/// first (the largest).
pub open spec fn select_host_spec(options: Seq<(Seq<char>, u64)>, requested: Option<Seq<char>>) -> Option<(Seq<char>, u64)> {
    let wanted = match requested {
        Some(w) => find_host(options, w),
        None => None,
    };
    if wanted is Some {
        wanted
    } else if options.len() > 0 {
        Some(options[0])
    } else {
        None
    }
}

fn copy_option(o: &HostOption) -> (r: HostOption)
    ensures
        r@ == o@,
{
    HostOption { id: o.id.clone(), total_records: o.total_records }
}

/// Pick the host to display: the requested one when it holds records, else
/// the largest.
pub fn select_host(options: &[HostOption], requested: Option<&str>) -> (r: Option<HostOption>)
    ensures
        (match r {
            Some(o) => Some(o@),
            None => None,
        }) == select_host_spec(option_views(options@), match requested {
            Some(w) => Some(w@),
            None => None,
        }),
        r is None <==> options@.len() == 0,
        r matches Some(o) ==> exists|k: int|
            #[trigger] first_with_id(options@, o.id@, k) && options@[k].total_records
                == o.total_records,
        requested matches Some(w) ==> (has_host(options@, w@) ==> (r matches Some(o) && o.id@
            == w@)),
        (requested matches Some(w) ==> !has_host(options@, w@)) && options@.len() > 0 ==> (
        r matches Some(o) && o@ == options@[0]@),
{
    let r = select_host_scan(options, requested);
    proof {
        let k = selected_index(options@, match requested {
            Some(w) => Some(w@),
            None => None,
        });
        if r is Some {
            assert(first_with_id(options@, r->0.id@, k));
        }
    }
    r
}

/// The requested host when one has its id, else the first.
fn select_host_scan(options: &[HostOption], requested: Option<&str>) -> (r: Option<HostOption>)
    ensures
        (match r {
            Some(o) => Some(o@),
            None => None,
        }) == select_host_spec(option_views(options@), match requested {
            Some(w) => Some(w@),
            None => None,
        }),
{
    let ghost views = option_views(options@);
    if let Some(want) = requested {
        let n = options.len();
        let mut i: usize = 0;
        assert(views.subrange(0, n as int) =~= views);
        while i < n
            invariant
                n == options@.len(),
                views == option_views(options@),
                requested == Some(want),
                i <= n,
                find_host(views, want@) == find_host(views.subrange(i as int, n as int), want@),
            decreases n - i,
        {
            assert(views.subrange(i as int, n as int).drop_first() =~= views.subrange(
                i + 1,
                n as int,
            ));
            if str_eq(options[i].id.as_str(), want) {
                assert(views[i as int] == options@[i as int]@);
                assert(views.subrange(i as int, n as int)[0] == views[i as int]);
                return Some(copy_option(&options[i]));
            }
            i = i + 1;
        }
    }
    if options.len() > 0 {
        Some(copy_option(&options[0]))
    } else {
        None
    }
}


/// The query string of the records page.
pub struct RecordsQuery {
    pub page: u64,
    pub page_size: u64,
    pub tag: Option<String>,
    pub sort: String,
    pub host: Option<String>,
}

/// The page shown when the query names none.
pub fn default_page() -> (r: u64)
    ensures
        r == 1,
{
    1
}

/// The page size used when the query names none.
pub fn default_page_size() -> (r: u64)
    ensures
        r == DEFAULT_PAGE_SIZE,
{
    DEFAULT_PAGE_SIZE
}

/// The order used when the query names none.
pub fn default_sort() -> (r: String)
    ensures
        r@ == "desc"@,
{
    String::from_str("desc")
}

/// The tag that the records page shows: the one the query names, when it is
/// allowed; else the page lists the record types.
pub fn records_tag(query: &RecordsQuery) -> (r: Option<String>)
    ensures
        opt_text(r) == match opt_text(query.tag) {
            Some(t) => if is_allowed_tag_spec(t) {
                Some(t)
            } else {
                None
            },
            None => None,
        },
{
    match &query.tag {
        Some(t) => if is_allowed_tag(t.as_str()) {
            Some(t.clone())
        } else {
            None
        },
        None => None,
    }
}

/// The hosts member of the server's record status, when it is an object.
pub open spec fn hosts_of(status: Option<Json>) -> Seq<(String, Json)> {
    match status {
        Some(v) => match spec_get(v, "hosts"@) {
            Some(Json::Object(entries)) => entries@,
            _ => Seq::empty(),
        },
        None => Seq::empty(),
    }
}

/// Finds the hosts member of the server's record status, when it is an
/// object.
pub fn hosts_member(status: &Option<Json>) -> (r: Option<&Vec<(String, Json)>>)
    ensures
        r matches Some(v) ==> v@ == hosts_of(*status),
        r is None ==> hosts_of(*status) == Seq::<(String, Json)>::empty(),
{
    match status {
        Some(v) => match v.get("hosts") {
            Some(h) => h.as_object(),
            None => None,
        },
        None => None,
    }
}

/// The hosts that hold records of `tag`, largest first, from the server's
/// record status (`None` when it could not be fetched). `None` when a host's
/// record count overflows a `u64`.
pub fn records_hosts(status: &Option<Json>, tag: &str) -> (r: Option<Vec<HostOption>>)
    ensures
        r is None <==> !host_counts_fit(hosts_of(*status), tag@),
        r matches Some(v) ==> hosts_in_order(option_views(v@)) && option_views(v@).to_multiset()
            == host_candidates(hosts_of(*status), tag@).to_multiset(),
        r matches Some(v) ==> options_read_tag(v@, hosts_of(*status), tag@),
{
    let empty: Vec<(String, Json)> = Vec::new();
    let hosts: &Vec<(String, Json)> = match hosts_member(status) {
        Some(entries) => entries,
        None => &empty,
    };
    assert(hosts@ == hosts_of(*status));
    if !host_counts_in_range(hosts, tag) {
        return None;
    }
    Some(host_options(hosts, tag))
}

/// The order the records page uses: "asc" when asked for, else "desc".
pub open spec fn sort_spec(sort: Seq<char>) -> Seq<char> {
    if sort == "asc"@ {
        "asc"@
    } else {
        "desc"@
    }
}

/// The path that fetches `count` records of `tag` from `host`, from index
/// `start` on.
pub open spec fn next_records_path(host: Seq<char>, tag: Seq<char>, start: u64, count: u64) -> Seq<char> {
    "/api/v0/record/next?host="@ + host + "&tag="@ + tag + "&start="@ + decimal(start as nat)
        + "&count="@ + decimal(count as nat)
}

/// The path that fetches `count` records of `tag` from `host`.
pub fn next_records_path_for(host: &str, tag: &str, start: u64, count: u64) -> (r: String)
    ensures
        r@ == next_records_path(host@, tag@, start, count),
{
    let mut r = String::from_str("/api/v0/record/next?host=");
    r.append(host);
    r.append("&tag=");
    r.append(tag);
    r.append("&start=");
    push_decimal(&mut r, start);
    r.append("&count=");
    push_decimal(&mut r, count);
    assert(r@ =~= next_records_path(host@, tag@, start, count));
    r
}

/// How the records page of one tag is put together.
pub struct RecordsPlan {
    pub tag_label: &'static str,
    /// The host whose records are shown.
    pub host: Option<String>,
    pub pagination: PaginationInfo,
    /// "asc" or "desc".
    pub sort: String,
    /// The records are fetched oldest first and shown newest first.
    pub reverse: bool,
    /// The first record index fetched, and how many.
    pub start: u64,
    pub count: u64,
    /// What to fetch, when a host holds records.
    pub next_path: Option<String>,
}

/// The host shown for `query` among `hosts`.
pub open spec fn plan_selection(hosts: Seq<HostOption>, query: RecordsQuery) -> Option<(Seq<char>, u64)> {
    select_host_spec(option_views(hosts), opt_text(query.host))
}

/// The number of records of the host shown.
pub open spec fn plan_total(hosts: Seq<HostOption>, query: RecordsQuery) -> u64 {
    match plan_selection(hosts, query) {
        Some(h) => h.1,
        None => 0,
    }
}

/// The page shown, brought into range.
pub open spec fn plan_current_page(hosts: Seq<HostOption>, query: RecordsQuery) -> int {
    let size = nearest_page_size(query.page_size);
    current_page_for(query.page, total_pages_for(plan_total(hosts, query), size))
}

/// The records page can be put together for `query` without overflow.
pub open spec fn plan_defined(hosts: Seq<HostOption>, query: RecordsQuery) -> bool {
    &&& page_size_measurable(query.page_size)
    &&& query.sort@ != "asc"@ ==> reverse_window_defined(
        plan_current_page(hosts, query) as u64,
        plan_total(hosts, query),
        nearest_page_size(query.page_size),
    )
}

/// The first record index fetched, and how many: counted from index 0 in
/// ascending order, from the newest record back in descending order.
pub open spec fn plan_window(hosts: Seq<HostOption>, query: RecordsQuery) -> (u64, u64) {
    let size = nearest_page_size(query.page_size);
    let current = plan_current_page(hosts, query);
    if query.sort@ == "asc"@ {
        (((current - 1) * size) as u64, size)
    } else {
        reverse_window_spec(current as u64, plan_total(hosts, query), size)
    }
}

/// `k` is the first of `hosts` whose id is `id`.
pub open spec fn first_with_id(hosts: Seq<HostOption>, id: Seq<char>, k: int) -> bool {
    &&& 0 <= k < hosts.len()
    &&& hosts[k].id@ == id
    &&& forall|j: int| 0 <= j < k ==> (#[trigger] hosts[j]).id@ != id
}

/// Some host of `hosts` has the id `id`.
pub open spec fn has_host(hosts: Seq<HostOption>, id: Seq<char>) -> bool {
    exists|k: int| 0 <= k < hosts.len() && (#[trigger] hosts[k]).id@ == id
}

/// The records page shows the host asked for when one has that id, else the
/// first (the largest), and no host only when there is none; the pages are
/// counted over the records of the host shown (none when no host is shown).
pub proof fn lemma_plan_paginates_shown_host(hosts: Seq<HostOption>, query: RecordsQuery)
    ensures
        plan_selection(hosts, query) is None <==> hosts.len() == 0,
        plan_selection(hosts, query) is None ==> plan_total(hosts, query) == 0,
        plan_selection(hosts, query) matches Some(h) ==> exists|k: int|
            #[trigger] first_with_id(hosts, h.0, k) && hosts[k].total_records == plan_total(
                hosts,
                query,
            ),
        opt_text(query.host) matches Some(w) ==> (has_host(hosts, w) ==> (plan_selection(
            hosts,
            query,
        ) matches Some(h) && h.0 == w)),
        (opt_text(query.host) matches Some(w) ==> !has_host(hosts, w)) && hosts.len() > 0
            ==> plan_selection(hosts, query) == Some(hosts[0]@),
{
    lemma_select_host_first(hosts, opt_text(query.host));
}

/// Selecting among `hosts` gives the first host whose id is the one
/// requested, when one has it; else the first host (the largest); and no
/// host only when there is none.
pub proof fn lemma_select_host_first(hosts: Seq<HostOption>, requested: Option<Seq<char>>)
    ensures
        select_host_spec(option_views(hosts), requested) is None <==> hosts.len() == 0,
        select_host_spec(option_views(hosts), requested) matches Some(h) ==> exists|k: int|
            #[trigger] first_with_id(hosts, h.0, k) && hosts[k].total_records == h.1,
        requested matches Some(w) ==> (has_host(hosts, w) ==> (select_host_spec(
            option_views(hosts),
            requested,
        ) matches Some(h) && h.0 == w)),
        (requested matches Some(w) ==> !has_host(hosts, w)) && hosts.len() > 0 ==> select_host_spec(
            option_views(hosts),
            requested,
        ) == Some(hosts[0]@),
{
    let k = selected_index(hosts, requested);
    if let Some(h) = select_host_spec(option_views(hosts), requested) {
        assert(first_with_id(hosts, h.0, k) && hosts[k].total_records == h.1);
    }
}

/// Where the selected host stands among `hosts`.
proof fn selected_index(hosts: Seq<HostOption>, requested: Option<Seq<char>>) -> (k: int)
    ensures
        select_host_spec(option_views(hosts), requested) is None <==> hosts.len() == 0,
        select_host_spec(option_views(hosts), requested) matches Some(h) ==> first_with_id(
            hosts,
            h.0,
            k,
        ) && hosts[k].total_records == h.1,
        requested matches Some(w) ==> (has_host(hosts, w) ==> (select_host_spec(
            option_views(hosts),
            requested,
        ) matches Some(h) && h.0 == w)),
        (requested matches Some(w) ==> !has_host(hosts, w)) && hosts.len() > 0 ==> select_host_spec(
            option_views(hosts),
            requested,
        ) == Some(hosts[0]@),
{
    let views = option_views(hosts);
    assert forall|k: int| 0 <= k < hosts.len() implies #[trigger] views[k] == hosts[k]@ by {}
    if let Some(w) = requested {
        lemma_find_host(views, w);
        if has_host(hosts, w) {
            let k = choose|k: int| 0 <= k < hosts.len() && (#[trigger] hosts[k]).id@ == w;
            assert(views[k].0 == w);
        } else {
            assert forall|k: int| 0 <= k < views.len() implies (#[trigger] views[k]).0 != w by {
                assert(views[k] == hosts[k]@);
            }
        }
        if find_host(views, w) is Some {
            let h = find_host(views, w)->0;
            let k = choose|k: int|
                0 <= k < views.len() && views[k] == h && forall|j: int|
                    0 <= j < k ==> (#[trigger] views[j]).0 != w;
            assert forall|j: int| 0 <= j < k implies (#[trigger] hosts[j]).id@ != w by {
                assert(views[j] == hosts[j]@);
            }
            assert(views[k] == hosts[k]@);
            assert(select_host_spec(views, requested) == Some(h));
            return k;
        }
    }
    if hosts.len() > 0 {
        assert(views[0] == hosts[0]@);
        assert(select_host_spec(views, requested) == Some(views[0]));
    }
    0
}

/// The records fetched for the page shown: in ascending order the page's
/// own stretch from index 0 on; in descending order the stretch counted back
/// from the newest record, so that page 1 ends at the newest record and each
/// page ends where the one before it (one newer) begins. (Where the count of
/// records or the pages' extent passes `i64::MAX`, the arithmetic wraps.)
pub proof fn lemma_plan_window_reads_pages(hosts: Seq<HostOption>, query: RecordsQuery)
    ensures
        ({
            let size = nearest_page_size(query.page_size);
            let current = plan_current_page(hosts, query);
            let total = plan_total(hosts, query);
            let (start, count) = plan_window(hosts, query);
            &&& 1 <= current <= total_pages_for(total, size)
            &&& query.sort@ == "asc"@ ==> start == (current - 1) * size && count == size
            &&& query.sort@ != "asc"@ && total <= i64::MAX && current * size <= i64::MAX ==> {
                &&& start + count == total - (current - 1) * size
                &&& start == if total > current * size {
                    total - current * size
                } else {
                    0
                }
            }
        }),
{
    let size = nearest_page_size(query.page_size);
    let total = plan_total(hosts, query);
    let current = plan_current_page(hosts, query);
    lemma_clamp_page_size_idempotent(query.page_size);
    lemma_pagination_window(query.page, total, size);
    lemma_ascending_start_fits(total, size, current);
    if query.sort@ != "asc"@ && total <= i64::MAX && current * size <= i64::MAX {
        lemma_reverse_pages_tile(current as u64, total, size);
    }
}

/// There is always at least one page.
pub proof fn lemma_total_pages_positive(total_records: u64, page_size: u64)
    requires
        page_size >= 1,
    ensures
        total_pages_for(total_records, page_size) >= 1,
{
    if total_records > 0 && total_records / page_size == 0 {
        assert(total_records % page_size == total_records) by (nonlinear_arith)
            requires
                total_records / page_size == 0,
                page_size >= 1,
        ;
    }
}

proof fn lemma_ascending_start_fits(total: u64, size: u64, current: int)
    requires
        size >= 1,
        1 <= current <= total_pages_for(total, size),
    ensures
        0 <= (current - 1) * size <= total,
{
    let q = total / size;
    let tp = total_pages_for(total, size);
    assert(q * size <= total) by (nonlinear_arith)
        requires
            q == total / size,
            size >= 1,
    ;
    assert(total == 0 ==> q == 0);
    assert(current - 1 <= q);
    assert((current - 1) * size <= q * size) by (nonlinear_arith)
        requires
            0 <= current - 1 <= q,
            size >= 1,
    ;
    assert(0 <= (current - 1) * size) by (nonlinear_arith)
        requires
            0 <= current - 1,
            size >= 1,
    ;
}

/// What the records page `p` shows for `query` among `hosts`: the host asked
/// for when one has that id, else the first (the largest), and no host only
/// when there is none; pages counted over that host's records (the first
/// host with its id), none when no host is shown; in ascending order the
/// page's own stretch of records from index 0 on, in descending order the
/// stretch that ends `(current_page - 1) * page_size` records before the
/// newest (while the numbers stay within `i64`); and pagination links as
/// `pagination_links` describes them.
pub open spec fn plan_shows(p: RecordsPlan, hosts: Seq<HostOption>, query: RecordsQuery) -> bool {
    let total = p.pagination.total_records;
    let size = p.pagination.page_size;
    let current = p.pagination.current_page;
    &&& opt_text(p.host) is None <==> hosts.len() == 0
    &&& opt_text(p.host) is None ==> total == 0
    &&& opt_text(p.host) matches Some(id) ==> exists|k: int|
        #[trigger] first_with_id(hosts, id, k) && hosts[k].total_records == total
    &&& opt_text(query.host) matches Some(w) ==> (has_host(hosts, w) ==> opt_text(p.host) == Some(
        w,
    ))
    &&& (opt_text(query.host) matches Some(w) ==> !has_host(hosts, w)) && hosts.len() > 0
        ==> opt_text(p.host) == Some(hosts[0].id@)
    &&& pagination_links(p.pagination, query.page, total)
    &&& !p.reverse ==> p.start == (current - 1) * size && p.count == size
    &&& p.reverse && total <= i64::MAX && current * size <= i64::MAX ==> {
        &&& p.start + p.count == total - (current - 1) * size
        &&& p.start == if total > current * size {
            total - current * size
        } else {
            0
        }
    }
}

/// Puts the records page of `tag` together: which host, which page, which
/// records to fetch. `None` where the numbers overflow.
pub fn plan_records(hosts: &Vec<HostOption>, tag: &str, query: &RecordsQuery) -> (r: Option<RecordsPlan>)
    ensures
        r is None <==> !plan_defined(hosts@, *query),
        r matches Some(p) ==> {
            &&& p.tag_label@ == tag_label_spec(tag@)
            &&& opt_text(p.host) == match plan_selection(hosts@, *query) {
                Some(h) => Some(h.0),
                None => None,
            }
            &&& pagination_for(
                p.pagination,
                query.page,
                plan_total(hosts@, *query),
                nearest_page_size(query.page_size),
            )
            &&& p.sort@ == sort_spec(query.sort@)
            &&& p.reverse == (query.sort@ != "asc"@)
            &&& (p.start, p.count) == plan_window(hosts@, *query)
            &&& opt_text(p.next_path) == match plan_selection(hosts@, *query) {
                Some(h) => Some(next_records_path(h.0, tag@, p.start, p.count)),
                None => None,
            }
            &&& plan_shows(p, hosts@, *query)
        },
{
    if !(query.page_size < 0x8000_0000_0000_0000u64 || query.page_size > 0x8000_0000_0000_0064u64) {
        return None;
    }
    let requested: Option<&str> = match &query.host {
        Some(h) => Some(h.as_str()),
        None => None,
    };
    let selected = select_host(hosts.as_slice(), requested);
    let total_records: u64 = match &selected {
        Some(h) => h.total_records,
        None => 0,
    };
    let page_size = clamp_page_size(query.page_size);
    let pagination = calculate_pagination(query.page, total_records, page_size);
    assert(pagination.page_size == nearest_page_size(query.page_size));
    let ascending = crate::text::str_eq(query.sort.as_str(), "asc");
    let (start, count) = if ascending {
        proof {
            lemma_total_pages_positive(total_records, pagination.page_size);
            lemma_ascending_start_fits(total_records, pagination.page_size, pagination.current_page as int);
        }
        ((pagination.current_page - 1) * pagination.page_size, pagination.page_size)
    } else {
        if !reverse_window_fits(pagination.current_page, total_records, pagination.page_size) {
            return None;
        }
        reverse_pagination_window(pagination.current_page, total_records, pagination.page_size)
    };
    let next_path = match &selected {
        Some(h) => Some(next_records_path_for(h.id.as_str(), tag, start, count)),
        None => None,
    };
    let host = match selected {
        Some(h) => Some(h.id),
        None => None,
    };
    let plan = RecordsPlan {
        tag_label: tag_label(tag),
        host,
        pagination,
        sort: if ascending {
            String::from_str("asc")
        } else {
            String::from_str("desc")
        },
        reverse: !ascending,
        start,
        count,
        next_path,
    };
    proof {
        lemma_plan_shows(plan, hosts@, *query);
    }
    Some(plan)
}

/// The plan's own facts, as `plan_records` states them, give `plan_shows`.
proof fn lemma_plan_shows(p: RecordsPlan, hosts: Seq<HostOption>, query: RecordsQuery)
    requires
        opt_text(p.host) == match plan_selection(hosts, query) {
            Some(h) => Some(h.0),
            None => None,
        },
        pagination_for(
            p.pagination,
            query.page,
            plan_total(hosts, query),
            nearest_page_size(query.page_size),
        ),
        p.reverse == (query.sort@ != "asc"@),
        (p.start, p.count) == plan_window(hosts, query),
    ensures
        plan_shows(p, hosts, query),
{
    lemma_plan_paginates_shown_host(hosts, query);
    lemma_plan_window_reads_pages(hosts, query);
    lemma_clamp_page_size_idempotent(query.page_size);
    let total = p.pagination.total_records;
    let size = p.pagination.page_size;
    let current = p.pagination.current_page;
    assert(total == plan_total(hosts, query));
    assert(size == nearest_page_size(query.page_size));
    assert(current == plan_current_page(hosts, query));
    assert(opt_text(p.host) is None <==> hosts.len() == 0);
    assert(opt_text(p.host) is None ==> total == 0);
    if let Some(id) = opt_text(p.host) {
        assert(exists|k: int| #[trigger] first_with_id(hosts, id, k) && hosts[k].total_records == total);
    }
    if let Some(w) = opt_text(query.host) {
        assert(has_host(hosts, w) ==> opt_text(p.host) == Some(w));
    }
    assert((opt_text(query.host) matches Some(w) ==> !has_host(hosts, w)) && hosts.len() > 0
        ==> opt_text(p.host) == Some(hosts[0].id@));
    lemma_pagination_links(
        p.pagination,
        query.page,
        plan_total(hosts, query),
        nearest_page_size(query.page_size),
    );
    assert(!p.reverse ==> p.start == (current - 1) * size && p.count == size);
    assert(p.reverse && total <= i64::MAX && current * size <= i64::MAX ==> {
        &&& p.start + p.count == total - (current - 1) * size
        &&& p.start == if total > current * size {
            total - current * size
        } else {
            0
        }
    });
}

/// The records fetched for the page, newest first when `reverse`: nothing
/// (JSON null) when nothing was fetched or the fetch failed.
pub fn finish_next(fetched: Option<Result<Json, WebError>>, reverse: bool) -> (r: Json)
    ensures
        (match fetched {
            Some(Ok(Json::Array(orig))) => if reverse {
                (r matches Json::Array(items) && items@ == orig@.reverse())
            } else {
                r == Json::Array(orig)
            },
            Some(Ok(v)) => r == v,
            _ => r == Json::Null,
        }),
{
    match fetched {
        Some(Ok(v)) => {
            if reverse {
                match v {
                    Json::Array(mut items) => {
                        let ghost orig = items@;
                        let mut out: Vec<Json> = Vec::new();
                        while items.len() > 0
                            invariant
                                orig.len() == items@.len() + out@.len(),
                                items@ == orig.take(items@.len() as int),
                                out@ == orig.skip(items@.len() as int).reverse(),
                            decreases items@.len(),
                        {
                            let ghost before = items@;
                            let x = items.pop().unwrap();
                            out.push(x);
                            assert(items@ =~= orig.take(items@.len() as int));
                            assert(out@ =~= orig.skip(items@.len() as int).reverse());
                        }
                        assert(orig.skip(0) =~= orig);
                        Json::Array(out)
                    },
                    other => other,
                }
            } else {
                v
            }
        },
        _ => Json::Null,
    }
}

/// Snapping a page size gives an allowed one, and an allowed size snaps to
/// itself: snapping twice is snapping once.
pub proof fn lemma_clamp_page_size_idempotent(size: u64)
    ensures
        nearest_page_size(size) == 25 || nearest_page_size(size) == 50 || nearest_page_size(size)
            == 100,
        nearest_page_size(25) == 25,
        nearest_page_size(50) == 50,
        nearest_page_size(100) == 100,
        page_size_measurable(nearest_page_size(size)),
        nearest_page_size(nearest_page_size(size)) == nearest_page_size(size),
{
}

/// The pages hold the records: `total_pages` pages of `page_size` hold at
/// least `total_records`, one page fewer would not, and there is always a
/// page.
pub proof fn lemma_total_pages_bounds(total_records: u64, page_size: u64)
    requires
        page_size >= 1,
    ensures
        total_pages_for(total_records, page_size) >= 1,
        total_pages_for(total_records, page_size) * page_size >= total_records,
        total_pages_for(total_records, page_size) * page_size <= total_records + page_size,
        total_records > 0 ==> (total_pages_for(total_records, page_size) - 1) * page_size
            < total_records,
        total_records == 0 ==> total_pages_for(total_records, page_size) == 1,
{
    lemma_total_pages_positive(total_records, page_size);
    let q = total_records / page_size;
    let r = total_records % page_size;
    assert(total_records == q * page_size + r && 0 <= r < page_size) by (nonlinear_arith)
        requires
            q == total_records / page_size,
            r == total_records % page_size,
            page_size >= 1,
    ;
    let tp = total_pages_for(total_records, page_size);
    if total_records > 0 {
        if r == 0 {
            assert(tp == q);
            assert(q >= 1) by (nonlinear_arith)
                requires
                    total_records == q * page_size,
                    total_records > 0,
                    page_size >= 1,
            ;
            assert((tp - 1) * page_size == q * page_size - page_size) by (nonlinear_arith)
                requires
                    tp == q,
            ;
        } else {
            assert(tp == q + 1);
            assert(tp * page_size == q * page_size + page_size) by (nonlinear_arith)
                requires
                    tp == q + 1,
            ;
        }
    } else {
        assert(tp * page_size == page_size) by (nonlinear_arith)
            requires
                tp == 1,
        ;
    }
}

/// The page shown lies among the pages, and its links form a window of up
/// to five consecutive pages around it, all of them real pages.
pub proof fn lemma_pagination_window(page: u64, total_records: u64, page_size: u64)
    requires
        page_size >= 1,
    ensures
        ({
            let tp = total_pages_for(total_records, page_size);
            let current = current_page_for(page, tp);
            let (first, last) = page_window(current, tp);
            &&& 1 <= current <= tp
            &&& 1 <= first <= current <= last <= tp
            &&& last - first + 1 == if tp < 5 {
                tp
            } else {
                5
            }
        }),
{
    lemma_total_pages_positive(total_records, page_size);
}

/// Counting pages back from the newest record, page `p` holds the records
/// from index `total - p * size` (or 0) up to, not including,
/// `total - (p - 1) * size`: page 1 ends at the newest record, the last page
/// starts at index 0, and each page ends where the one after it begins. So
/// the pages cover every record once. (Where a count or product passes
/// `i64::MAX`, the `i64` arithmetic wraps and this no longer holds.)
pub proof fn lemma_reverse_pages_tile(p: u64, total_records: u64, page_size: u64)
    requires
        1 <= page_size,
        total_records <= i64::MAX,
        p * page_size <= i64::MAX,
        1 <= p <= total_pages_for(total_records, page_size),
    ensures
        reverse_window_defined(p, total_records, page_size),
        reverse_window_spec(p, total_records, page_size).0 == if total_records - p * page_size > 0 {
            total_records - p * page_size
        } else {
            0
        },
        reverse_window_spec(p, total_records, page_size).0 + reverse_window_spec(
            p,
            total_records,
            page_size,
        ).1 == total_records - (p - 1) * page_size,
        p == 1 ==> reverse_window_spec(p, total_records, page_size).0 + reverse_window_spec(
            p,
            total_records,
            page_size,
        ).1 == total_records,
        p == total_pages_for(total_records, page_size) ==> reverse_window_spec(
            p,
            total_records,
            page_size,
        ).0 == 0,
        p < total_pages_for(total_records, page_size) && (p + 1) * page_size <= i64::MAX
            ==> reverse_window_spec(
            p,
            total_records,
            page_size,
        ).0 == reverse_window_spec((p + 1) as u64, total_records, page_size).0
            + reverse_window_spec((p + 1) as u64, total_records, page_size).1,
{
    lemma_total_pages_bounds(total_records, page_size);
    let tp = total_pages_for(total_records, page_size);
    assert(p * page_size <= tp * page_size) by (nonlinear_arith)
        requires
            p <= tp,
            page_size >= 1,
    ;
    assert((p - 1) * page_size == p * page_size - page_size) by (nonlinear_arith);
    assert(p * page_size >= page_size) by (nonlinear_arith)
        requires
            p >= 1,
            page_size >= 1,
    ;
    assert((p - 1) * page_size <= (tp - 1) * page_size) by (nonlinear_arith)
        requires
            p <= tp,
            page_size >= 1,
    ;
    if p < tp && (p + 1) * page_size <= i64::MAX {
        let q = (p + 1) as u64;
        assert(q * page_size <= tp * page_size) by (nonlinear_arith)
            requires
                q <= tp,
                page_size >= 1,
        ;
        assert(q * page_size == p * page_size + page_size) by (nonlinear_arith)
            requires
                q == p + 1,
        ;
        assert((q - 1) * page_size <= (tp - 1) * page_size) by (nonlinear_arith)
            requires
                q <= tp,
                page_size >= 1,
        ;
        assert(total_records - p * page_size > 0);
    }
    if p == tp {
        assert(total_records - p * page_size <= 0);
    }
}

/// The id of the host that `find_host` finds is the one asked for, and it is
/// among the options.
proof fn lemma_find_host(options: Seq<(Seq<char>, u64)>, id: Seq<char>)
    ensures
        find_host(options, id) matches Some(h) ==> (h.0 == id && exists|k: int|
            0 <= k < options.len() && options[k] == h && forall|j: int|
                0 <= j < k ==> (#[trigger] options[j]).0 != id),
        find_host(options, id) is None <==> forall|k: int|
            0 <= k < options.len() ==> (#[trigger] options[k]).0 != id,
    decreases options.len(),
{
    if options.len() > 0 && options[0].0 != id {
        lemma_find_host(options.drop_first(), id);
        if find_host(options, id) is Some {
            let h = find_host(options, id)->0;
            let k = choose|k: int|
                0 <= k < options.drop_first().len() && options.drop_first()[k] == h && forall|j: int|
                    0 <= j < k ==> (#[trigger] options.drop_first()[j]).0 != id;
            assert(options[k + 1] == h);
            assert forall|j: int| 0 <= j < k + 1 implies (#[trigger] options[j]).0 != id by {
                if j > 0 {
                    assert(options[j] == options.drop_first()[j - 1]);
                }
            }
        } else {
            assert forall|k: int| 0 <= k < options.len() implies (#[trigger] options[k]).0 != id by {
                if k > 0 {
                    assert(options[k] == options.drop_first()[k - 1]);
                }
            }
        }
        if forall|k: int| 0 <= k < options.len() ==> (#[trigger] options[k]).0 != id {
            assert forall|k: int| 0 <= k < options.drop_first().len() implies (
            #[trigger] options.drop_first()[k]).0 != id by {
                assert(options.drop_first()[k] == options[k + 1]);
            }
        }
    } else if options.len() > 0 {
        assert(options[0] == find_host(options, id)->0);
    }
}

/// The host shown is one of the options: the one asked for when it holds
/// records, else, the options being largest first, one that holds the most
/// records. No host is shown only when no host holds records.
pub proof fn lemma_select_host_largest(options: Seq<(Seq<char>, u64)>, requested: Option<Seq<char>>)
    requires
        hosts_in_order(options),
    ensures
        select_host_spec(options, requested) is None <==> options.len() == 0,
        select_host_spec(options, requested) matches Some(h) ==> (exists|k: int|
            0 <= k < options.len() && options[k] == h),
        requested is Some && find_host(options, requested->0) is Some ==> (select_host_spec(
            options,
            requested,
        ) matches Some(h) && h.0 == requested->0),
        (requested is None || find_host(options, requested->0) is None) && options.len() > 0
            ==> (select_host_spec(options, requested) == Some(options[0]) && forall|k: int|
            0 <= k < options.len() ==> options[0].1 >= (#[trigger] options[k]).1),
{
    if let Some(w) = requested {
        lemma_find_host(options, w);
    }
    if options.len() > 0 {
        assert forall|k: int| 0 <= k < options.len() implies options[0].1 >= (
        #[trigger] options[k]).1 by {
            if k > 0 {
                assert(host_precedes(options[0], options[k]));
            }
        }
    }
}

/// The allowed tags are exactly those with a heading of their own; any other
/// text is headed "Records".
pub proof fn lemma_tag_label_known(tag: Seq<char>)
    ensures
        is_allowed_tag_spec(tag) <==> tag_label_spec(tag) != "Records"@,
{
    reveal_strlit("history");
    reveal_strlit("kv");
    reveal_strlit("config-shell-alias");
    reveal_strlit("dotfiles-var");
    reveal_strlit("script");
    reveal_strlit("History");
    reveal_strlit("Key-Value");
    reveal_strlit("Aliases");
    reveal_strlit("Variables");
    reveal_strlit("Scripts");
    reveal_strlit("Records");
    assert("History"@[0] != "Records"@[0]);
    assert("Key-Value"@.len() != "Records"@.len());
    assert("Aliases"@[0] != "Records"@[0]);
    assert("Variables"@.len() != "Records"@.len());
    assert("Scripts"@[0] != "Records"@[0]);
}

} // verus!



