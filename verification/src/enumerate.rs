//! The list of the watchdogs of the system.
use vstd::prelude::*;
use vstd::seq_lib::*;

use crate::error::{Error, ErrorView};
use crate::number::{decimal, parse_u32, parsed_u32, reading_undoes_writing};
use crate::sysfs::{EntryView, WatchdogSysfs};
use crate::text::starts_with;

verus! {

/// One step of listing a directory.
#[derive(Debug)]
pub enum DirEntry {
    /// The directory has an entry of this name.
    Named { name: String },
    /// The next entry could not be read.
    Failed { cause: String },
}

/// How listing `/sys/class/watchdog` went.
#[derive(Debug)]
pub enum DirListing {
    /// There is no such directory.
    Missing,
    /// The directory could not be opened.
    Unreadable { cause: String },
    /// The entries, in the order in which the system gave them.
    Entries { entries: Vec<DirEntry> },
}

/// `s` without the copies of `prefix` that it begins with.
pub open spec fn without_prefixes(s: Seq<char>, prefix: Seq<char>) -> Seq<char>
    decreases s.len(),
{
    if prefix.len() > 0 && prefix.is_prefix_of(s) {
        without_prefixes(s.skip(prefix.len() as int), prefix)
    } else {
        s
    }
}

/// The number in the name of a directory entry: what follows `watchdog`, or 0 where that is no
/// number.
pub open spec fn index_in_name(name: Seq<char>) -> u32 {
    match parsed_u32(without_prefixes(name, "watchdog"@)) {
        Ok(n) => n,
        Err(_) => 0,
    }
}

/// The watchdog that a directory entry of this name stands for.
pub open spec fn entry_of_name(name: Seq<char>) -> EntryView {
    EntryView { index: index_in_name(name), sysfs: "/sys/class/watchdog/"@ + name }
}

/// The watchdogs among the entries, in the order of the listing.
pub open spec fn watchdogs_in(entries: Seq<DirEntry>) -> Seq<EntryView>
    decreases entries.len(),
{
    if entries.len() == 0 {
        Seq::empty()
    } else {
        let before = watchdogs_in(entries.drop_last());
        match entries.last() {
            DirEntry::Named { name } => if "watchdog"@.is_prefix_of(name@) {
                before.push(entry_of_name(name@))
            } else {
                before
            },
            DirEntry::Failed { .. } => before,
        }
    }
}

/// Why the first entry that could not be read could not.
pub open spec fn first_failure(entries: Seq<DirEntry>) -> Option<Seq<char>>
    decreases entries.len(),
{
    if entries.len() == 0 {
        None
    } else {
        match entries[0] {
            DirEntry::Failed { cause } => Some(cause@),
            DirEntry::Named { .. } => first_failure(entries.drop_first()),
        }
    }
}

/// The entries with number `index`, in their order.
pub open spec fn with_index(entries: Seq<EntryView>, index: u32) -> Seq<EntryView> {
    entries.filter(|e: EntryView| e.index == index)
}

/// The numbers of the entries do not decrease.
pub open spec fn in_index_order(entries: Seq<EntryView>) -> bool {
    forall|i: int, j: int|
        0 <= i <= j < entries.len() ==> (#[trigger] entries[i]).index <= (
        #[trigger] entries[j]).index
}

/// `sorted` holds what `given` holds, ordered by number; entries with the same number keep
/// their order.
pub open spec fn stably_sorted(given: Seq<EntryView>, sorted: Seq<EntryView>) -> bool {
    &&& in_index_order(sorted)
    &&& forall|index: u32| #[trigger] with_index(sorted, index) == with_index(given, index)
}

/// The watchdogs of a list as the specifications see them.
pub open spec fn entry_views(list: Seq<WatchdogSysfs>) -> Seq<EntryView> {
    list.map_values(|e: WatchdogSysfs| e@)
}

fn strip_prefixes(s: &str, prefix: &str) -> (r: String)
    ensures
        r@ == without_prefixes(s@, prefix@),
    decreases s@.len(),
{
    let n: usize = prefix.unicode_len();
    if n > 0 && starts_with(s, prefix) {
        let len: usize = s.unicode_len();
        let rest: &str = s.substring_char(n, len);
        assert(rest@ == s@.skip(prefix@.len() as int));
        strip_prefixes(rest, prefix)
    } else {
        s.to_owned()
    }
}

fn watchdog_of_name(name: &str) -> (r: WatchdogSysfs)
    ensures
        r@ == entry_of_name(name@),
{
    let index: u32 = match parse_u32(strip_prefixes(name, "watchdog").as_str()) {
        Ok(n) => n,
        Err(_) => 0,
    };
    let mut sysfs: String = "/sys/class/watchdog/".to_owned();
    sysfs.append(name);
    WatchdogSysfs { index, sysfs }
}

proof fn filter_keeps_nothing(s: Seq<EntryView>, index: u32)
    requires
        forall|i: int| 0 <= i < s.len() ==> (#[trigger] s[i]).index != index,
    ensures
        with_index(s, index) == Seq::<EntryView>::empty(),
    decreases s.len(),
{
    reveal(Seq::filter);
    if s.len() > 0 {
        filter_keeps_nothing(s.drop_last(), index);
    }
}

proof fn inserting_sorts(given: Seq<EntryView>, sorted: Seq<EntryView>, at: int, e: EntryView)
    requires
        stably_sorted(given, sorted),
        0 <= at <= sorted.len(),
        forall|i: int| 0 <= i < at ==> (#[trigger] sorted[i]).index <= e.index,
        forall|i: int| at <= i < sorted.len() ==> e.index < (#[trigger] sorted[i]).index,
    ensures
        stably_sorted(given.push(e), sorted.insert(at, e)),
{
    reveal(Seq::filter);
    let after = sorted.insert(at, e);
    let low = sorted.take(at);
    let high = sorted.skip(at);
    assert(after =~= low + seq![e] + high);
    assert(sorted =~= low + high);
    assert forall|index: u32| #[trigger]
        with_index(after, index) == with_index(given.push(e), index) by {
        let p = |x: EntryView| x.index == index;
        Seq::filter_distributes_over_add(low + seq![e], high, p);
        Seq::filter_distributes_over_add(low, seq![e], p);
        Seq::filter_distributes_over_add(low, high, p);
        assert(given.push(e).drop_last() =~= given);
        assert(with_index(sorted, index) == with_index(given, index));
        assert(seq![e].drop_last() =~= Seq::<EntryView>::empty());
        assert(Seq::<EntryView>::empty().filter(p) =~= Seq::<EntryView>::empty());
        if index == e.index {
            filter_keeps_nothing(high, index);
            assert(seq![e].filter(p) =~= seq![e]);
            assert(after.filter(p) =~= given.push(e).filter(p));
        } else {
            assert(seq![e].filter(p) =~= Seq::<EntryView>::empty());
            assert(after.filter(p) =~= given.push(e).filter(p));
        }
    }
    assert forall|i: int, j: int| 0 <= i <= j < after.len() implies (#[trigger] after[i]).index <= (
    #[trigger] after[j]).index by {
        let a = if i < at {
            i
        } else {
            i - 1
        };
        let b = if j < at {
            j
        } else {
            j - 1
        };
        if i != at && j != at {
            assert(after[i] == sorted[a] && after[j] == sorted[b]);
        } else if i == at && j != at {
            assert(after[j] == sorted[b]);
        } else if i != at {
            assert(after[i] == sorted[a]);
        }
    }
}

/// Puts `e` behind every entry whose number is not greater.
fn insert_sorted(list: &mut Vec<WatchdogSysfs>, e: WatchdogSysfs, given: Ghost<Seq<EntryView>>)
    requires
        stably_sorted(given@, entry_views(old(list)@)),
    ensures
        stably_sorted(given@.push(e@), entry_views(final(list)@)),
{
    let ghost sorted = entry_views(list@);
    let mut at: usize = list.len();
    while at > 0 && list[at - 1].index > e.index
        invariant
            at <= list@.len(),
            sorted == entry_views(list@),
            forall|i: int| at <= i < sorted.len() ==> e.index < (#[trigger] sorted[i]).index,
        decreases at,
    {
        at -= 1;
        assert(sorted[at as int] == list@[at as int]@);
    }
    proof {
        assert forall|i: int| 0 <= i < at implies (#[trigger] sorted[i]).index <= e.index by {
            assert(sorted[at - 1] == list@[at - 1]@);
            assert(sorted[i].index <= sorted[at - 1].index);
        }
        inserting_sorts(given@, sorted, at as int, e@);
    }
    let ghost added = e;
    list.insert(at, e);
    assert(entry_views(list@) =~= sorted.insert(at as int, added@));
}

proof fn failure_is_found(entries: Seq<DirEntry>, i: int)
    requires
        0 <= i <= entries.len(),
        forall|k: int| 0 <= k < i ==> (#[trigger] entries[k]) is Named,
    ensures
        i == entries.len() ==> first_failure(entries) is None,
        i < entries.len() && entries[i] is Failed ==> first_failure(entries) == Some(
            entries[i]->cause@,
        ),
    decreases entries.len(),
{
    if entries.len() > 0 && i > 0 {
        let rest = entries.drop_first();
        assert forall|k: int| 0 <= k < i - 1 implies (#[trigger] rest[k]) is Named by {
            assert(entries[k + 1] == rest[k]);
        }
        assert(entries[0] is Named);
        failure_is_found(rest, i - 1);
    }
}

/// The watchdogs of the system, ordered by number. Entries of the directory whose names do not
/// begin with `watchdog` do not count; where the directory does not exist, there are none.
pub fn enumerate(listing: &DirListing) -> (r: Result<Vec<WatchdogSysfs>, Error>)
    ensures
        match *listing {
            DirListing::Missing => r matches Ok(list) && list@.len() == 0,
            DirListing::Unreadable { cause } => r matches Err(e) && e@ == (ErrorView::ListDir {
                cause: cause@,
            }),
            DirListing::Entries { entries } => match first_failure(entries@) {
                Some(cause) => r matches Err(e) && e@ == (ErrorView::Io { cause }),
                None => r matches Ok(list) && {
                    &&& stably_sorted(watchdogs_in(entries@), entry_views(list@))
                    &&& lists_the_directory(entries@, entry_views(list@))
                },
            },
        },
{
    let mut out: Vec<WatchdogSysfs> = Vec::new();
    match listing {
        DirListing::Missing => {
            assert(out@.len() == 0);
            Ok(out)
        },
        DirListing::Unreadable { cause } => Err(Error::ListDir { cause: cause.clone() }),
        DirListing::Entries { entries } => {
            let mut i: usize = 0;
            assert(entries@.take(0) =~= Seq::<DirEntry>::empty());
            assert(entry_views(out@) =~= Seq::<EntryView>::empty());
            while i < entries.len()
                invariant
                    listing == (DirListing::Entries { entries: *entries }),
                    i <= entries@.len(),
                    forall|k: int| 0 <= k < i ==> (#[trigger] entries@[k]) is Named,
                    stably_sorted(watchdogs_in(entries@.take(i as int)), entry_views(out@)),
                decreases entries@.len() - i,
            {
                assert(entries@.take(i + 1).drop_last() =~= entries@.take(i as int));
                match &entries[i] {
                    DirEntry::Failed { cause } => {
                        proof {
                            failure_is_found(entries@, i as int);
                        }
                        return Err(Error::Io { cause: cause.clone() });
                    },
                    DirEntry::Named { name } => {
                        if starts_with(name.as_str(), "watchdog") {
                            let e: WatchdogSysfs = watchdog_of_name(name.as_str());
                            insert_sorted(
                                &mut out,
                                e,
                                Ghost(watchdogs_in(entries@.take(i as int))),
                            );
                        }
                    },
                }
                i += 1;
            }
            proof {
                failure_is_found(entries@, entries@.len() as int);
                assert(entries@.take(entries@.len() as int) =~= entries@);
                let order = every_watchdog_of_the_directory_is_listed(entries@, entry_views(out@));
                assert(lists_each_once(entries@, entry_views(out@), order));
            }
            Ok(out)
        },
    }
}

proof fn filter_keeps_count(s: Seq<EntryView>, e: EntryView)
    ensures
        with_index(s, e.index).to_multiset().count(e) == s.to_multiset().count(e),
    decreases s.len(),
{
    broadcast use group_to_multiset_ensures;

    reveal(Seq::filter);
    if s.len() > 0 {
        let rest = s.drop_last();
        filter_keeps_count(rest, e);
        assert(s =~= rest.push(s.last()));
        let p = |x: EntryView| x.index == e.index;
        if p(s.last()) {
            assert(s.filter(p) == rest.filter(p).push(s.last()));
        } else {
            assert(s.filter(p) == rest.filter(p));
        }
    }
}

/// Sorting neither loses nor invents a watchdog: each is listed as often as the directory has
/// it.
pub proof fn enumeration_lists_every_watchdog(given: Seq<EntryView>, sorted: Seq<EntryView>)
    requires
        stably_sorted(given, sorted),
    ensures
        sorted.to_multiset() == given.to_multiset(),
        sorted.len() == given.len(),
        forall|e: EntryView| sorted.contains(e) == given.contains(e),
{
    broadcast use group_to_multiset_ensures;

    assert forall|e: EntryView|
        sorted.to_multiset().count(e) == given.to_multiset().count(e) by {
        filter_keeps_count(sorted, e);
        filter_keeps_count(given, e);
        assert(with_index(sorted, e.index) == with_index(given, e.index));
    }
    assert(sorted.to_multiset() =~= given.to_multiset());
    to_multiset_len(sorted);
    to_multiset_len(given);
    assert forall|e: EntryView| sorted.contains(e) == given.contains(e) by {
        to_multiset_contains(sorted, e);
        to_multiset_contains(given, e);
    }
}

proof fn filter_of_last(s: Seq<EntryView>, index: u32)
    requires
        s.len() > 0,
    ensures
        s.last().index == index ==> with_index(s, index) == with_index(s.drop_last(), index).push(
            s.last(),
        ),
        s.last().index != index ==> with_index(s, index) == with_index(s.drop_last(), index),
{
    reveal(Seq::filter);
}

proof fn entry_with_index(s: Seq<EntryView>, index: u32) -> (i: int)
    requires
        with_index(s, index).len() > 0,
    ensures
        0 <= i < s.len(),
        s[i].index == index,
    decreases s.len(),
{
    if s.len() == 0 {
        filter_keeps_nothing(s, index);
        0
    } else if s.last().index == index {
        s.len() - 1
    } else {
        filter_of_last(s, index);
        entry_with_index(s.drop_last(), index)
    }
}

proof fn last_indices_agree(a: Seq<EntryView>, b: Seq<EntryView>)
    requires
        in_index_order(a),
        forall|index: u32| #[trigger] with_index(a, index) == with_index(b, index),
        b.len() > 0,
    ensures
        a.len() > 0,
        b.last().index <= a.last().index,
{
    let m = b.last().index;
    filter_of_last(b, m);
    assert(with_index(b, m).len() > 0);
    assert(with_index(a, m) == with_index(b, m));
    let i = entry_with_index(a, m);
    assert(a[i].index <= a[a.len() - 1].index);
}

proof fn classes_determine_order(a: Seq<EntryView>, b: Seq<EntryView>)
    requires
        in_index_order(a),
        in_index_order(b),
        forall|index: u32| #[trigger] with_index(a, index) == with_index(b, index),
    ensures
        a == b,
    decreases a.len(),
{
    if a.len() == 0 && b.len() == 0 {
        assert(a =~= b);
    } else {
        if a.len() > 0 {
            assert forall|index: u32| #[trigger] with_index(b, index) == with_index(a, index) by {
                assert(with_index(a, index) == with_index(b, index));
            }
            last_indices_agree(b, a);
        }
        if b.len() > 0 {
            last_indices_agree(a, b);
        }
        let m = a.last().index;
        let x = a.drop_last();
        let y = b.drop_last();
        assert forall|index: u32| #[trigger] with_index(x, index) == with_index(y, index) by {
            filter_of_last(a, index);
            filter_of_last(b, index);
            assert(with_index(a, index) == with_index(b, index));
            if index == m {
                assert(with_index(a, index).drop_last() =~= with_index(x, index));
                assert(with_index(b, index).drop_last() =~= with_index(y, index));
            }
        }
        classes_determine_order(x, y);
        filter_of_last(a, m);
        filter_of_last(b, m);
        assert(with_index(a, m) == with_index(b, m));
        assert(with_index(a, m).last() == a.last());
        assert(with_index(b, m).last() == b.last());
        assert(a =~= x.push(a.last()));
        assert(b =~= y.push(b.last()));
    }
}

/// There is only one way to order a list by number and keep the order within each number: the
/// result of [`enumerate`] is fixed by the listing.
pub proof fn enumeration_is_determined(
    given: Seq<EntryView>,
    first: Seq<EntryView>,
    second: Seq<EntryView>,
)
    requires
        stably_sorted(given, first),
        stably_sorted(given, second),
    ensures
        first == second,
{
    assert forall|index: u32| #[trigger] with_index(first, index) == with_index(second, index) by {
        assert(with_index(second, index) == with_index(given, index));
    }
    classes_determine_order(first, second);
}

/// The directory entry `watchdog<n>` stands for watchdog number `n`, whose device node has the
/// same name in `/dev`.
pub proof fn entry_name_and_device_node_agree(n: u32)
    ensures
        index_in_name("watchdog"@ + decimal(n as nat)) == n,
        entry_of_name("watchdog"@ + decimal(n as nat)).node() == "/dev/"@ + ("watchdog"@ + decimal(
            n as nat,
        )),
{
    let prefix = "watchdog"@;
    let digits = decimal(n as nat);
    let name = prefix + digits;
    reveal_strlit("watchdog");
    reveal_strlit("/dev/watchdog");
    reveal_strlit("/dev/");
    assert(name.subrange(0, prefix.len() as int) =~= prefix);
    assert(name.skip(prefix.len() as int) =~= digits);
    reading_undoes_writing(n);
    assert(!prefix.is_prefix_of(digits)) by {
        if prefix.is_prefix_of(digits) {
            assert(digits.subrange(0, prefix.len() as int)[0] == 'w');
            assert(parsed_u32(digits) is Ok);
        }
    }
    assert(without_prefixes(digits, prefix) == digits);
    assert("/dev/watchdog"@ =~= "/dev/"@ + prefix);
    assert(entry_of_name(name).node() =~= "/dev/"@ + name);
}

/// The name at position `k` of a directory listing begins with `watchdog`.
pub open spec fn is_watchdog_at(entries: Seq<DirEntry>, k: int) -> bool {
    &&& 0 <= k < entries.len()
    &&& entries[k] matches DirEntry::Named { name } && "watchdog"@.is_prefix_of(name@)
}

/// `list` holds, for each position of the listing with the name of a watchdog, the entry of that
/// name, and nothing else: entry `j` comes from position `order[j]`. The entries go by their
/// numbers, and those with the same number by their positions.
pub open spec fn lists_each_once(
    entries: Seq<DirEntry>,
    list: Seq<EntryView>,
    order: Seq<int>,
) -> bool {
    &&& order.len() == list.len()
    &&& order.no_duplicates()
    &&& forall|k: int| #[trigger] order.contains(k) <==> is_watchdog_at(entries, k)
    &&& forall|j: int|
        0 <= j < list.len() ==> {
            &&& (#[trigger] list[j]).sysfs == "/sys/class/watchdog/"@
                + entries[order[j]]->name@
            &&& list[j].index == index_in_name(entries[order[j]]->name@)
        }
    &&& forall|i: int, j: int|
        0 <= i < j < list.len() ==> {
            ||| (#[trigger] list[i]).index < (#[trigger] list[j]).index
            ||| list[i].index == list[j].index && order[i] < order[j]
        }
}

/// `list` holds the watchdogs of the listing, each once and in order.
pub open spec fn lists_the_directory(entries: Seq<DirEntry>, list: Seq<EntryView>) -> bool {
    exists|order: Seq<int>| #[trigger] lists_each_once(entries, list, order)
}

proof fn place_for(sorted: Seq<EntryView>, index: u32, upto: int) -> (at: int)
    requires
        in_index_order(sorted),
        0 <= upto <= sorted.len(),
        forall|i: int| upto <= i < sorted.len() ==> index < (#[trigger] sorted[i]).index,
    ensures
        0 <= at <= sorted.len(),
        forall|i: int| 0 <= i < at ==> (#[trigger] sorted[i]).index <= index,
        forall|i: int| at <= i < sorted.len() ==> index < (#[trigger] sorted[i]).index,
    decreases upto,
{
    if upto > 0 && sorted[upto - 1].index > index {
        place_for(sorted, index, upto - 1)
    } else {
        if upto > 0 {
            assert forall|i: int| 0 <= i < upto implies (#[trigger] sorted[i]).index <= index by {
                assert(sorted[i].index <= sorted[upto - 1].index);
            }
        }
        upto
    }
}

/// The entries at the positions `order`.
spec fn entries_at(entries: Seq<DirEntry>, order: Seq<int>) -> Seq<EntryView> {
    order.map_values(|k: int| entry_of_name(entries[k]->name@))
}

proof fn directory_order(entries: Seq<DirEntry>) -> (order: Seq<int>)
    ensures
        lists_each_once(entries, entries_at(entries, order), order),
        stably_sorted(watchdogs_in(entries), entries_at(entries, order)),
    decreases entries.len(),
{
    if entries.len() == 0 {
        let order = Seq::<int>::empty();
        assert(entries_at(entries, order) =~= Seq::<EntryView>::empty());
        order
    } else {
        let before = entries.drop_last();
        let last = entries.len() - 1;
        let o = directory_order(before);
        let sorted = entries_at(before, o);
        assert forall|j: int| 0 <= j < o.len() implies 0 <= #[trigger] o[j] < last && before[o[j]]
            == entries[o[j]] by {
            assert(o.contains(o[j]));
        }
        assert(entries_at(entries, o) =~= sorted);
        if is_watchdog_at(entries, last) {
            let e = entry_of_name(entries[last]->name@);
            assert(watchdogs_in(entries) == watchdogs_in(before).push(e));
            let at = place_for(sorted, e.index, sorted.len() as int);
            inserting_sorts(watchdogs_in(before), sorted, at, e);
            let order = o.insert(at, last);
            let list = entries_at(entries, order);
            assert(list =~= sorted.insert(at, e));
            assert forall|k: int| #[trigger] order.contains(k) <==> is_watchdog_at(entries, k) by {
                if order.contains(k) {
                    let j = choose|j: int| 0 <= j < order.len() && order[j] == k;
                    if j < at {
                        assert(o[j] == k);
                        assert(o.contains(k));
                    } else if j > at {
                        assert(o[j - 1] == k);
                        assert(o.contains(k));
                    }
                }
                if is_watchdog_at(entries, k) {
                    if k == last {
                        assert(order[at] == k);
                    } else {
                        assert(before[k] == entries[k]);
                        assert(o.contains(k));
                        let j = choose|j: int| 0 <= j < o.len() && o[j] == k;
                        if j < at {
                            assert(order[j] == k);
                        } else {
                            assert(order[j + 1] == k);
                        }
                    }
                }
            }
            assert forall|i: int, j: int|
                0 <= i < order.len() && 0 <= j < order.len() && i != j implies order[i]
                != order[j] by {
                let a = if i < at {
                    i
                } else {
                    i - 1
                };
                let b = if j < at {
                    j
                } else {
                    j - 1
                };
                if i != at && j != at {
                    assert(order[i] == o[a] && order[j] == o[b]);
                } else if i == at {
                    assert(order[j] == o[b]);
                } else {
                    assert(order[i] == o[a]);
                }
            }
            assert forall|i: int, j: int| 0 <= i < j < list.len() implies {
                ||| (#[trigger] list[i]).index < (#[trigger] list[j]).index
                ||| list[i].index == list[j].index && order[i] < order[j]
            } by {
                let a = if i < at {
                    i
                } else {
                    i - 1
                };
                let b = if j < at {
                    j
                } else {
                    j - 1
                };
                if i != at && j != at {
                    assert(list[i] == sorted[a] && list[j] == sorted[b]);
                    assert(order[i] == o[a] && order[j] == o[b]);
                } else if i == at {
                    assert(list[j] == sorted[b]);
                } else {
                    assert(list[i] == sorted[a]);
                    assert(order[i] == o[a]);
                }
            }
            order
        } else {
            assert(watchdogs_in(entries) == watchdogs_in(before));
            assert forall|k: int| #[trigger] o.contains(k) <==> is_watchdog_at(entries, k) by {
                if is_watchdog_at(entries, k) {
                    assert(before[k] == entries[k]);
                }
                if is_watchdog_at(before, k) {
                    assert(before[k] == entries[k]);
                }
            }
            o
        }
    }
}

/// The list of the watchdogs is the directory, in order: each position of the listing whose name
/// begins with `watchdog` is listed once, and no other is; the list goes by the numbers in the
/// names, and among equal numbers by the positions.
pub proof fn every_watchdog_of_the_directory_is_listed(
    entries: Seq<DirEntry>,
    list: Seq<EntryView>,
) -> (order: Seq<int>)
    requires
        stably_sorted(watchdogs_in(entries), list),
    ensures
        lists_each_once(entries, list, order),
{
    let order = directory_order(entries);
    enumeration_is_determined(watchdogs_in(entries), entries_at(entries, order), list);
    order
}

/// There are as many watchdogs in the list as there are positions in the directory whose names
/// begin with `watchdog`, and the watchdog of each such position is among them.
pub proof fn as_many_watchdogs_as_names(entries: Seq<DirEntry>, list: Seq<EntryView>)
    requires
        stably_sorted(watchdogs_in(entries), list),
    ensures
        list.len() == Set::new(|k: int| is_watchdog_at(entries, k)).len(),
        forall|k: int| #[trigger]
            is_watchdog_at(entries, k) ==> exists|j: int|
                0 <= j < list.len() && (#[trigger] list[j]).sysfs == "/sys/class/watchdog/"@
                    + entries[k]->name@,
{
    let order = every_watchdog_of_the_directory_is_listed(entries, list);
    let places = Set::new(|k: int| is_watchdog_at(entries, k));
    order.unique_seq_to_set();
    assert(order.to_set() =~= places);
    assert forall|k: int| #[trigger] is_watchdog_at(entries, k) implies exists|j: int|
        0 <= j < list.len() && (#[trigger] list[j]).sysfs == "/sys/class/watchdog/"@
            + entries[k]->name@ by {
        assert(order.contains(k));
        let j = choose|j: int| 0 <= j < order.len() && order[j] == k;
        assert(list[j].sysfs == "/sys/class/watchdog/"@ + entries[k]->name@);
    }
}

/// The number in a name is what stands behind `watchdog`, or 0 where that is no number. A name
/// with `watchdog` twice has the number that it has without the first.
pub proof fn the_number_stands_behind_the_prefix(rest: Seq<char>)
    ensures
        "watchdog"@.is_prefix_of(rest) ==> index_in_name("watchdog"@ + rest) == index_in_name(rest),
        !"watchdog"@.is_prefix_of(rest) ==> match parsed_u32(rest) {
            Ok(n) => index_in_name("watchdog"@ + rest) == n,
            Err(_) => index_in_name("watchdog"@ + rest) == 0,
        },
{
    let prefix = "watchdog"@;
    reveal_strlit("watchdog");
    let name = prefix + rest;
    assert(name.subrange(0, prefix.len() as int) =~= prefix);
    assert(name.skip(prefix.len() as int) =~= rest);
    assert(without_prefixes(name, prefix) == without_prefixes(rest, prefix));
}

/// Listing fails exactly where some entry could not be read, and then with the first of those.
pub proof fn the_first_unreadable_entry_counts(entries: Seq<DirEntry>, i: int)
    requires
        0 <= i <= entries.len(),
        forall|k: int| 0 <= k < i ==> (#[trigger] entries[k]) is Named,
        i < entries.len() ==> entries[i] is Failed,
    ensures
        i == entries.len() ==> first_failure(entries) is None,
        i < entries.len() ==> first_failure(entries) == Some(entries[i]->cause@),
{
    failure_is_found(entries, i);
}

/// The specifications see of each entry of a list its number and its directory.
pub proof fn every_entry_is_seen(list: Seq<WatchdogSysfs>)
    ensures
        entry_views(list).len() == list.len(),
        forall|i: int|
            0 <= i < list.len() ==> (#[trigger] entry_views(list)[i]).index == list[i].index
                && entry_views(list)[i].sysfs == list[i].sysfs@,
{
}

} // verus!
