//! Output-device choice and listing, over the devices' names.
//!
//! A requested name picks the one device whose name contains it, ignoring
//! case; the listing shows every device sorted by name, the default one
//! marked.

use vstd::prelude::*;
use crate::text::{
    chars_of, contains, contains_chars, lemma_lex_irreflexive, lemma_lex_total,
    lemma_lex_transitive, lex_less, lex_less_chars, lowercase, to_lowercase, ascii_lower,
    ascii_upper, is_ascii_chars_seq, lemma_ascii_upper_lower,
};

verus! {

/// The characters of each name.
pub open spec fn name_views(names: Seq<String>) -> Seq<Seq<char>> {
    names.map_values(|s: String| s@)
}

/// The lower-cased characters of each name.
pub open spec fn lowered_views(names: Seq<String>) -> Seq<Seq<char>> {
    names.map_values(|s: String| lowercase(s@))
}

/// How many of the first `n` names contain `needle`.
pub open spec fn containing_count(names: Seq<Seq<char>>, needle: Seq<char>, n: int) -> nat
    decreases n,
{
    if n <= 0 {
        0
    } else {
        containing_count(names, needle, n - 1) + if contains(names[n - 1], needle) {
            1nat
        } else {
            0nat
        }
    }
}

/// Why a requested name did not pick exactly one device.
#[derive(Debug, Clone, Copy, PartialEq, Eq, Structural)]
pub enum PickError {
    /// No device name contains the request.
    NoMatch,
    /// This many device names contain the request.
    Ambiguous(usize),
}

/// `r` is the outcome of picking among `names` the one that contains
/// `needle`: that name's index when exactly one does, `NoMatch` when none
/// does, else how many do.
pub open spec fn picks(names: Seq<Seq<char>>, needle: Seq<char>, r: Result<usize, PickError>) -> bool {
    let count = containing_count(names, needle, names.len() as int);
    &&& (r == Err::<usize, PickError>(PickError::NoMatch) <==> count == 0)
    &&& (r is Ok <==> count == 1)
    &&& (count >= 2 <==> r == Err::<usize, PickError>(PickError::Ambiguous(count as usize)))
    &&& r matches Ok(i) ==> {
        &&& i < names.len()
        &&& contains(names[i as int], needle)
        &&& forall|j: int| 0 <= j < names.len() && contains(#[trigger] names[j], needle) ==> j == i
    }
}

/// Two of the first `n` names that contain the needle are the same one
/// when the count is at most one.
proof fn lemma_single_match(names: Seq<Seq<char>>, needle: Seq<char>, n: int, i: int, j: int)
    requires
        0 <= i < n,
        0 <= j < n,
        n <= names.len(),
        contains(names[i], needle),
        contains(names[j], needle),
        containing_count(names, needle, n) <= 1,
    ensures
        i == j,
    decreases n,
{
    if i != j {
        if i == n - 1 || j == n - 1 {
            let other = if i == n - 1 {
                j
            } else {
                i
            };
            lemma_count_positive(names, needle, n - 1, other);
        } else {
            lemma_single_match(names, needle, n - 1, i, j);
        }
    }
}

/// A name among the first `n` that contains the needle makes the count
/// positive.
proof fn lemma_count_positive(names: Seq<Seq<char>>, needle: Seq<char>, n: int, i: int)
    requires
        0 <= i < n,
        contains(names[i], needle),
    ensures
        containing_count(names, needle, n) >= 1,
    decreases n,
{
    if i < n - 1 {
        lemma_count_positive(names, needle, n - 1, i);
    }
}

/// Picks the one name that contains `needle`, case as given.
pub fn pick_containing(names: &Vec<String>, needle: &str) -> (r: Result<usize, PickError>)
    ensures
        picks(name_views(names@), needle@, r),
{
    let pattern = chars_of(needle);
    let ghost views = name_views(names@);
    let mut count: usize = 0;
    let mut found: usize = 0;
    let mut i: usize = 0;
    while i < names.len()
        invariant
            views == name_views(names@),
            pattern@ == needle@,
            i <= names@.len(),
            count == containing_count(views, needle@, i as int),
            count <= i,
            count > 0 ==> found < i && contains(views[found as int], needle@),
        decreases names@.len() - i,
    {
        let hay = chars_of(names[i].as_str());
        if contains_chars(&hay, &pattern) {
            count = count + 1;
            found = i;
        }
        i = i + 1;
    }
    if count == 0 {
        Err(PickError::NoMatch)
    } else if count == 1 {
        proof {
            assert forall|j: int|
                0 <= j < views.len() && contains(#[trigger] views[j], needle@) implies j
                == found by {
                lemma_single_match(views, needle@, views.len() as int, j, found as int);
            }
        }
        Ok(found)
    } else {
        Err(PickError::Ambiguous(count))
    }
}

/// The outcome of a pick is determined by the names and the needle.
pub proof fn lemma_picks_unique(
    names: Seq<Seq<char>>,
    needle: Seq<char>,
    r1: Result<usize, PickError>,
    r2: Result<usize, PickError>,
)
    requires
        picks(names, needle, r1),
        picks(names, needle, r2),
    ensures
        r1 == r2,
{
}

/// Requests that lower-case alike pick the same device: case is ignored.
pub proof fn lemma_pick_ignores_case(
    names: Seq<String>,
    a: Seq<char>,
    b: Seq<char>,
    ra: Result<usize, PickError>,
    rb: Result<usize, PickError>,
)
    requires
        lowercase(a) == lowercase(b),
        picks(lowered_views(names), lowercase(a), ra),
        picks(lowered_views(names), lowercase(b), rb),
    ensures
        ra == rb,
{
    lemma_picks_unique(lowered_views(names), lowercase(a), ra, rb);
}

/// An ASCII request and its upper-case form pick the same device (or
/// both fail alike): for ASCII requests the pick ignores case.
pub proof fn lemma_pick_ignores_ascii_case(
    names: Seq<String>,
    wanted: Seq<char>,
    r_as_given: Result<usize, PickError>,
    r_upper: Result<usize, PickError>,
)
    requires
        is_ascii_chars_seq(wanted),
        picks(lowered_views(names), ascii_lower(wanted), r_as_given),
        is_ascii_chars_seq(ascii_upper(wanted)) ==> picks(
            lowered_views(names),
            ascii_lower(ascii_upper(wanted)),
            r_upper,
        ),
    ensures
        r_as_given == r_upper,
{
    lemma_ascii_upper_lower(wanted);
    lemma_picks_unique(lowered_views(names), ascii_lower(wanted), r_as_given, r_upper);
}

/// Picks the device whose name contains `wanted`, ignoring case (both are
/// lower-cased first): its index when exactly one name does, else why not.
pub fn pick_output_device(names: &Vec<String>, wanted: &str) -> (r: Result<usize, PickError>)
    ensures
        picks(lowered_views(names@), lowercase(wanted@), r),
        is_ascii_chars_seq(wanted@) ==> picks(lowered_views(names@), ascii_lower(wanted@), r),
{
    let mut lowered: Vec<String> = Vec::new();
    let mut i: usize = 0;
    while i < names.len()
        invariant
            i <= names@.len(),
            lowered@.len() == i,
            forall|k: int| 0 <= k < i ==> (#[trigger] lowered@[k])@ == lowercase(names@[k]@),
        decreases names@.len() - i,
    {
        lowered.push(to_lowercase(names[i].as_str()));
        i = i + 1;
    }
    assert(name_views(lowered@) =~= lowered_views(names@));
    let needle = to_lowercase(wanted);
    pick_containing(&lowered, needle.as_str())
}

/// Device `i` is listed before device `j`: its name comes first, or the
/// names are equal and `i` came first (the sort is stable).
pub open spec fn listed_before(names: Seq<Seq<char>>, i: int, j: int) -> bool {
    lex_less(names[i], names[j]) || (names[i] == names[j] && i < j)
}

/// `order` lists each of the `names` once, sorted by name and, among equal
/// names, by original position.
pub open spec fn is_listing_order(names: Seq<Seq<char>>, order: Seq<usize>) -> bool {
    &&& order.len() == names.len()
    &&& forall|k: int| 0 <= k < order.len() ==> #[trigger] order[k] < names.len()
    &&& forall|x: usize| x < names.len() ==> #[trigger] order.contains(x)
    &&& forall|k: int, l: int|
        0 <= k < l < order.len() ==> listed_before(names, #[trigger] order[k] as int, #[trigger] order[l] as int)
}

/// Two different devices are listed one before the other.
proof fn lemma_listed_total(names: Seq<Seq<char>>, i: int, j: int)
    requires
        i != j,
    ensures
        listed_before(names, i, j) || listed_before(names, j, i),
        !(listed_before(names, i, j) && listed_before(names, j, i)),
{
    lemma_lex_total(names[i], names[j]);
    if names[i] == names[j] {
        lemma_lex_irreflexive(names[i]);
    }
}

/// The listing order is transitive.
proof fn lemma_listed_transitive(names: Seq<Seq<char>>, i: int, j: int, k: int)
    requires
        listed_before(names, i, j),
        listed_before(names, j, k),
    ensures
        listed_before(names, i, k),
{
    if lex_less(names[i], names[j]) && lex_less(names[j], names[k]) {
        lemma_lex_transitive(names[i], names[j], names[k]);
    }
}

/// The order in which the devices are listed: sorted by name, a stable
/// sort, so equal names keep their original order.
pub fn listing_order(names: &Vec<String>) -> (r: Vec<usize>)
    ensures
        is_listing_order(name_views(names@), r@),
{
    let ghost views = name_views(names@);
    let n = names.len();
    let mut chars: Vec<Vec<char>> = Vec::new();
    let mut c: usize = 0;
    while c < n
        invariant
            n == names@.len(),
            views == name_views(names@),
            c <= n,
            chars@.len() == c,
            forall|k: int| 0 <= k < c ==> (#[trigger] chars@[k])@ == views[k],
        decreases n - c,
    {
        chars.push(chars_of(names[c].as_str()));
        c = c + 1;
    }
    let mut order: Vec<usize> = Vec::new();
    let mut i: usize = 0;
    while i < n
        invariant
            n == names@.len(),
            views == name_views(names@),
            views.len() == n,
            chars@.len() == n,
            forall|k: int| 0 <= k < n ==> (#[trigger] chars@[k])@ == views[k],
            i <= n,
            order@.len() == i,
            forall|k: int| 0 <= k < order@.len() ==> #[trigger] order@[k] < i,
            forall|x: usize| x < i ==> #[trigger] order@.contains(x),
            forall|k: int, l: int|
                0 <= k < l < order@.len() ==> listed_before(views, #[trigger] order@[k] as int, #[trigger] order@[l] as int),
        decreases n - i,
    {
        let ghost before = order@;
        let mut p: usize = 0;
        while p < order.len()
            invariant
                order@ == before,
                n == names@.len(),
                views == name_views(names@),
                views.len() == n,
                chars@.len() == n,
                forall|k: int| 0 <= k < n ==> (#[trigger] chars@[k])@ == views[k],
                i < n,
                order@.len() == i,
                forall|k: int| 0 <= k < order@.len() ==> #[trigger] order@[k] < i,
                p <= order@.len(),
                forall|k: int| 0 <= k < p ==> !listed_before(views, i as int, #[trigger] order@[k] as int),
            ensures
                order@ == before,
                order@.len() == i,
                p <= order@.len(),
                forall|k: int| 0 <= k < p ==> !listed_before(views, i as int, #[trigger] order@[k] as int),
                p < order@.len() ==> listed_before(views, i as int, order@[p as int] as int),
            decreases order@.len() - p,
        {
            let other = order[p];
            let earlier = lex_less_chars(&chars[i], &chars[other]);
            let same = names[i] == names[other];
            assert(names@[i as int]@ == views[i as int] && names@[other as int]@ == views[other as int]);
            if earlier || (same && i < other) {
                break;
            }
            p = p + 1;
        }
        order.insert(p, i);
        proof {
            let after = order@;
            assert(after =~= before.insert(p as int, i));
            assert forall|k: int| 0 <= k < p implies listed_before(views, #[trigger] before[k] as int, i as int) by {
                lemma_listed_total(views, before[k] as int, i as int);
            }
            assert forall|k: int| p <= k < before.len() implies listed_before(views, i as int, #[trigger] before[k] as int) by {
                if k > p {
                    lemma_listed_transitive(views, i as int, before[p as int] as int, before[k] as int);
                }
            }
            assert forall|k: int, l: int|
                0 <= k < l < after.len() implies listed_before(views, #[trigger] after[k] as int, #[trigger] after[l] as int) by {
                if l < p {
                    assert(after[k] == before[k] && after[l] == before[l]);
                } else if l == p {
                    assert(after[k] == before[k]);
                } else if k < p {
                    assert(after[k] == before[k] && after[l] == before[l - 1]);
                    lemma_listed_transitive(views, before[k] as int, i as int, before[l - 1] as int);
                } else if k == p {
                    assert(after[l] == before[l - 1]);
                } else {
                    assert(after[k] == before[k - 1] && after[l] == before[l - 1]);
                }
            }
            assert forall|x: usize| x < i + 1 implies #[trigger] after.contains(x) by {
                if x == i {
                    assert(after[p as int] == i);
                } else {
                    assert(before.contains(x));
                    let k = choose|k: int| 0 <= k < before.len() && before[k] == x;
                    if k < p {
                        assert(after[k] == x);
                    } else {
                        assert(after[k + 1] == x);
                    }
                }
            }
            assert forall|k: int| 0 <= k < after.len() implies #[trigger] after[k] < i + 1 by {
                if k < p {
                    assert(after[k] == before[k]);
                } else if k > p {
                    assert(after[k] == before[k - 1]);
                }
            }
        }
        i = i + 1;
    }
    order
}

/// Each index in `order` comes strictly after the ones before it.
pub open spec fn strictly_listed(names: Seq<Seq<char>>, order: Seq<usize>) -> bool {
    forall|k: int, l: int|
        0 <= k < l < order.len() ==> listed_before(names, #[trigger] order[k] as int, #[trigger] order[l] as int)
}

/// Two strictly sorted sequences of the same indices are the same sequence.
proof fn lemma_sorted_unique(names: Seq<Seq<char>>, a: Seq<usize>, b: Seq<usize>)
    requires
        strictly_listed(names, a),
        strictly_listed(names, b),
        forall|x: usize| #![trigger a.contains(x)] #![trigger b.contains(x)] a.contains(x) <==> b.contains(x),
    ensures
        a == b,
    decreases a.len(),
{
    if a.len() == 0 {
        if b.len() > 0 {
            assert(b.contains(b[0]));
        }
        assert(a =~= b);
    } else {
        if b.len() == 0 {
            assert(a.contains(a[0]));
        }
        assert(a.contains(a[0]));
        assert(b.contains(b[0]));
        let j = choose|j: int| 0 <= j < b.len() && b[j] == a[0];
        let i = choose|i: int| 0 <= i < a.len() && a[i] == b[0];
        if a[0] != b[0] {
            assert(i > 0 && j > 0);
            assert(listed_before(names, a[0] as int, a[i] as int));
            assert(listed_before(names, b[0] as int, b[j] as int));
            lemma_listed_total(names, a[0] as int, b[0] as int);
        }
        let ta = a.drop_first();
        let tb = b.drop_first();
        assert forall|x: usize| #[trigger] ta.contains(x) implies tb.contains(x) by {
            let k = choose|k: int| 0 <= k < ta.len() && ta[k] == x;
            assert(a[k + 1] == x);
            assert(listed_before(names, a[0] as int, a[k + 1] as int));
            lemma_lex_irreflexive(names[x as int]);
            assert(a.contains(x));
            assert(b.contains(x));
            let m = choose|m: int| 0 <= m < b.len() && b[m] == x;
            assert(m != 0);
            assert(tb[m - 1] == x);
        }
        assert forall|x: usize| #[trigger] tb.contains(x) implies ta.contains(x) by {
            let k = choose|k: int| 0 <= k < tb.len() && tb[k] == x;
            assert(b[k + 1] == x);
            assert(listed_before(names, b[0] as int, b[k + 1] as int));
            lemma_lex_irreflexive(names[x as int]);
            assert(b.contains(x));
            assert(a.contains(x));
            let m = choose|m: int| 0 <= m < a.len() && a[m] == x;
            assert(m != 0);
            assert(ta[m - 1] == x);
        }
        assert forall|k: int, l: int| 0 <= k < l < ta.len() implies listed_before(
            names,
            #[trigger] ta[k] as int,
            #[trigger] ta[l] as int,
        ) by {
            assert(ta[k] == a[k + 1] && ta[l] == a[l + 1]);
        }
        assert forall|k: int, l: int| 0 <= k < l < tb.len() implies listed_before(
            names,
            #[trigger] tb[k] as int,
            #[trigger] tb[l] as int,
        ) by {
            assert(tb[k] == b[k + 1] && tb[l] == b[l + 1]);
        }
        lemma_sorted_unique(names, ta, tb);
        assert(a =~= seq![a[0]] + ta);
        assert(b =~= seq![b[0]] + tb);
    }
}

/// The listing order of a list of names is unique: any two orders that
/// sort the same names by name, keeping equal names in their original
/// order, are the same.
pub proof fn lemma_listing_order_unique(names: Seq<Seq<char>>, a: Seq<usize>, b: Seq<usize>)
    requires
        is_listing_order(names, a),
        is_listing_order(names, b),
    ensures
        a == b,
{
    assert forall|x: usize| #[trigger] a.contains(x) implies b.contains(x) by {
        let k = choose|k: int| 0 <= k < a.len() && a[k] == x;
        assert(a[k] < names.len());
    }
    assert forall|x: usize| #[trigger] b.contains(x) implies a.contains(x) by {
        let k = choose|k: int| 0 <= k < b.len() && b[k] == x;
        assert(b[k] < names.len());
    }
    lemma_sorted_unique(names, a, b);
}

/// The mark put in front of the default device's name in the listing.
pub const DEFAULT_MARK: &'static str = "[默认] ";

/// The listing line of a device: its name, marked when it is the default.
pub open spec fn listing_line(name: Seq<char>, is_default: bool) -> Seq<char> {
    if is_default {
        DEFAULT_MARK@ + name
    } else {
        name
    }
}

/// The listing line of one device.
pub fn device_line(name: &str, is_default: bool) -> (r: String)
    ensures
        r@ == listing_line(name@, is_default),
{
    if is_default {
        let mut line = String::from_str(DEFAULT_MARK);
        line.append(name);
        line
    } else {
        String::from_str(name)
    }
}

/// The lines that list the output devices: one per device, sorted by name
/// (equal names keep their order), the default ones marked.
pub fn output_device_lines(names: &Vec<String>, is_default: &Vec<bool>) -> (r: Vec<String>)
    requires
        names@.len() == is_default@.len(),
    ensures
        r@.len() == names@.len(),
        forall|order: Seq<usize>|
            is_listing_order(name_views(names@), order) ==> forall|k: int|
                0 <= k < r@.len() ==> (#[trigger] r@[k])@ == listing_line(
                    names@[order[k] as int]@,
                    is_default@[order[k] as int],
                ),
{
    let order = listing_order(names);
    let mut lines: Vec<String> = Vec::new();
    let mut k: usize = 0;
    while k < order.len()
        invariant
            is_listing_order(name_views(names@), order@),
            names@.len() == is_default@.len(),
            k <= order@.len(),
            lines@.len() == k,
            forall|m: int|
                0 <= m < k ==> (#[trigger] lines@[m])@ == listing_line(
                    names@[order@[m] as int]@,
                    is_default@[order@[m] as int],
                ),
        decreases order@.len() - k,
    {
        let i = order[k];
        lines.push(device_line(names[i].as_str(), is_default[i]));
        k = k + 1;
    }
    proof {
        assert forall|other: Seq<usize>| is_listing_order(name_views(names@), other) implies forall|m: int|
            0 <= m < lines@.len() ==> (#[trigger] lines@[m])@ == listing_line(
                names@[other[m] as int]@,
                is_default@[other[m] as int],
            ) by {
            lemma_listing_order_unique(name_views(names@), order@, other);
        }
    }
    lines
}

} // verus!
