//! How often and when each application was launched, and the order that follows from it.

use vstd::prelude::*;
use crate::desktop::AppInfo;
use crate::order::lemma_text_asymmetric;
use crate::order::lemma_text_irreflexive;
use crate::order::lemma_text_total;
use crate::order::lemma_text_transitive;
use crate::order::rank_names;
use crate::order::text_before;
use crate::order::Rank;
use crate::text::owned;
use crate::text::same_text;

verus! {

/// The launches of one application.
#[derive(Clone, Copy, Debug, PartialEq, Eq, Structural)]
pub struct AppLaunchHistory {
    /// How many there were.
    pub count: u32,
    /// When the last one was, in seconds since the epoch.
    pub last_launch: u64,
}

/// The launches of one application under its name.
#[derive(Debug)]
pub struct HistoryEntry {
    pub name: String,
    pub launches: AppLaunchHistory,
}

/// The launches of all applications, each name once.
#[derive(Debug)]
pub struct LaunchHistory {
    entries: Vec<HistoryEntry>,
}

spec fn named_in(entries: Seq<HistoryEntry>, name: Seq<char>) -> bool {
    exists|i: int| 0 <= i < entries.len() && (#[trigger] entries[i]).name@ == name
}

spec fn place_in(entries: Seq<HistoryEntry>, name: Seq<char>) -> int {
    choose|i: int| 0 <= i < entries.len() && (#[trigger] entries[i]).name@ == name
}

/// No name occurs twice.
pub open spec fn distinct_names(entries: Seq<HistoryEntry>) -> bool {
    forall|i: int, j: int|
        0 <= i < j < entries.len() ==> (#[trigger] entries[i]).name@ != (#[trigger] entries[j]).name@
}

spec fn map_of(entries: Seq<HistoryEntry>) -> Map<Seq<char>, AppLaunchHistory> {
    Map::new(
        |n: Seq<char>| named_in(entries, n),
        |n: Seq<char>| entries[place_in(entries, n)].launches,
    )
}

proof fn lemma_map_at(entries: Seq<HistoryEntry>, i: int)
    requires
        distinct_names(entries),
        0 <= i < entries.len(),
    ensures
        map_of(entries).contains_key(entries[i].name@),
        map_of(entries)[entries[i].name@] == entries[i].launches,
{
    let n = entries[i].name@;
    let k = place_in(entries, n);
    assert(entries[k].name@ == n);
    if k < i {
        assert(entries[k].name@ != entries[i].name@);
    } else if i < k {
        assert(entries[i].name@ != entries[k].name@);
    }
}

impl View for LaunchHistory {
    type V = Map<Seq<char>, AppLaunchHistory>;

    closed spec fn view(&self) -> Map<Seq<char>, AppLaunchHistory> {
        map_of(self.entries@)
    }
}

/// The history of a list of pairs; of several under one name the last counts.
pub open spec fn history_of(entries: Seq<HistoryEntry>) -> Map<Seq<char>, AppLaunchHistory>
    decreases entries.len(),
{
    if entries.len() == 0 {
        Map::empty()
    } else {
        history_of(entries.drop_last()).insert(entries.last().name@, entries.last().launches)
    }
}

impl LaunchHistory {
    /// Each name occurs once.
    pub closed spec fn wf(&self) -> bool {
        distinct_names(self.entries@)
    }

    /// A history without launches.
    pub fn new() -> (r: LaunchHistory)
        ensures
            r.wf(),
            r@ == Map::<Seq<char>, AppLaunchHistory>::empty(),
    {
        let r = LaunchHistory { entries: Vec::new() };
        proof {
            assert(r@ =~= Map::<Seq<char>, AppLaunchHistory>::empty());
        }
        r
    }

    fn find(&self, name: &str) -> (r: Option<usize>)
        requires
            self.wf(),
        ensures
            match r {
                Some(i) => i < self.entries@.len() && self.entries@[i as int].name@ == name@,
                None => !self@.contains_key(name@),
            },
    {
        let mut i: usize = 0;
        while i < self.entries.len()
            invariant
                i <= self.entries@.len(),
                forall|k: int| 0 <= k < i ==> (#[trigger] self.entries@[k]).name@ != name@,
            decreases self.entries@.len() - i,
        {
            if same_text(self.entries[i].name.as_str(), name) {
                return Some(i);
            }
            i += 1;
        }
        None
    }

    /// The launches of the application with this name.
    pub fn get(&self, name: &str) -> (r: Option<AppLaunchHistory>)
        requires
            self.wf(),
        ensures
            r == launches_of(self@, name@),
    {
        match self.find(name) {
            Some(i) => {
                proof {
                    lemma_map_at(self.entries@, i as int);
                }
                Some(self.entries[i].launches)
            },
            None => None,
        }
    }

    /// Sets the launches of the application with this name.
    pub fn set(&mut self, name: &str, launches: AppLaunchHistory)
        requires
            old(self).wf(),
        ensures
            final(self).wf(),
            final(self)@ == old(self)@.insert(name@, launches),
    {
        let ghost before = self.entries@;
        match self.find(name) {
            Some(i) => {
                let entry = HistoryEntry { name: owned(name), launches };
                self.entries.set(i, entry);
                proof {
                    let now = self.entries@;
                    assert(now =~= before.update(i as int, entry));
                    assert(distinct_names(now)) by {
                        assert forall|a: int, b: int| 0 <= a < b < now.len() implies (
                        #[trigger] now[a]).name@ != (#[trigger] now[b]).name@ by {
                            assert(now[a].name@ == before[a].name@);
                            assert(now[b].name@ == before[b].name@);
                            assert(before[a].name@ != before[b].name@);
                        }
                    }
                    assert forall|n: Seq<char>| named_in(now, n) == (named_in(before, n) || n
                        == name@) by {
                        if named_in(before, n) {
                            let k = place_in(before, n);
                            assert(now[k].name@ == n);
                        }
                        assert(now[i as int].name@ == name@);
                        if named_in(now, n) {
                            let k = place_in(now, n);
                            assert(before[k].name@ == n);
                        }
                    }
                    assert forall|n: Seq<char>| #[trigger] named_in(now, n) implies map_of(now)[n]
                        == map_of(before).insert(name@, launches)[n] by {
                        let k = place_in(now, n);
                        lemma_map_at(now, k);
                        if n != name@ {
                            assert(k != i);
                            lemma_map_at(before, k);
                            assert(before[k] == now[k]);
                        } else {
                            lemma_map_at(now, i as int);
                        }
                    }
                    assert(map_of(now) =~= map_of(before).insert(name@, launches));
                }
            },
            None => {
                let entry = HistoryEntry { name: owned(name), launches };
                self.entries.push(entry);
                proof {
                    let now = self.entries@;
                    assert(now =~= before.push(entry));
                    assert(distinct_names(now)) by {
                        assert forall|a: int, b: int| 0 <= a < b < now.len() implies (
                        #[trigger] now[a]).name@ != (#[trigger] now[b]).name@ by {
                            assert(now[a] == before[a]);
                            if b < before.len() {
                                assert(now[b] == before[b]);
                            } else if before[a].name@ == name@ {
                                assert(named_in(before, name@));
                            }
                        }
                    }
                    assert forall|n: Seq<char>| named_in(now, n) == (named_in(before, n) || n
                        == name@) by {
                        if named_in(before, n) {
                            let k = place_in(before, n);
                            assert(now[k].name@ == n);
                        }
                        assert(now[before.len() as int].name@ == name@);
                        if named_in(now, n) {
                            let k = place_in(now, n);
                            if k < before.len() {
                                assert(before[k].name@ == n);
                            }
                        }
                    }
                    assert forall|n: Seq<char>| #[trigger] named_in(now, n) implies map_of(now)[n]
                        == map_of(before).insert(name@, launches)[n] by {
                        let k = place_in(now, n);
                        lemma_map_at(now, k);
                        if n != name@ {
                            assert(k < before.len());
                            lemma_map_at(before, k);
                            assert(before[k] == now[k]);
                        } else {
                            lemma_map_at(now, before.len() as int);
                        }
                    }
                    assert(map_of(now) =~= map_of(before).insert(name@, launches));
                }
            },
        }
    }

    /// The history that a list of pairs describes.
    pub fn from_entries(pairs: &Vec<HistoryEntry>) -> (r: LaunchHistory)
        ensures
            r.wf(),
            r@ == history_of(pairs@),
    {
        let mut r = LaunchHistory::new();
        let mut i: usize = 0;
        proof {
            assert(pairs@.take(0) =~= Seq::<HistoryEntry>::empty());
        }
        while i < pairs.len()
            invariant
                i <= pairs@.len(),
                r.wf(),
                r@ == history_of(pairs@.take(i as int)),
            decreases pairs@.len() - i,
        {
            proof {
                assert(pairs@.take(i + 1).drop_last() =~= pairs@.take(i as int));
            }
            r.set(pairs[i].name.as_str(), pairs[i].launches);
            i += 1;
        }
        proof {
            assert(pairs@.take(i as int) =~= pairs@);
        }
        r
    }

    /// The pairs of the history, each name once.
    pub fn to_entries(&self) -> (r: Vec<HistoryEntry>)
        requires
            self.wf(),
        ensures
            history_of(r@) == self@,
            distinct_names(r@),
    {
        let mut out: Vec<HistoryEntry> = Vec::new();
        let mut i: usize = 0;
        while i < self.entries.len()
            invariant
                i <= self.entries@.len(),
                out@ =~= self.entries@.take(i as int),
            decreases self.entries@.len() - i,
        {
            let e = &self.entries[i];
            out.push(HistoryEntry { name: e.name.clone(), launches: e.launches });
            i += 1;
        }
        proof {
            assert(out@ =~= self.entries@);
            lemma_history_of_distinct(out@);
        }
        out
    }
}

proof fn lemma_history_of_distinct(entries: Seq<HistoryEntry>)
    requires
        distinct_names(entries),
    ensures
        history_of(entries) == map_of(entries),
    decreases entries.len(),
{
    if entries.len() == 0 {
        assert(history_of(entries) =~= map_of(entries));
    } else {
        let rest = entries.drop_last();
        let last = entries.last();
        assert(distinct_names(rest)) by {
            assert forall|a: int, b: int| 0 <= a < b < rest.len() implies (#[trigger] rest[a]).name@
                != (#[trigger] rest[b]).name@ by {
                assert(entries[a].name@ != entries[b].name@);
            }
        }
        lemma_history_of_distinct(rest);
        assert forall|n: Seq<char>| named_in(entries, n) == (named_in(rest, n) || n == last.name@) by {
            if named_in(rest, n) {
                let k = place_in(rest, n);
                assert(entries[k].name@ == n);
            }
            assert(entries[entries.len() - 1].name@ == last.name@);
            if named_in(entries, n) {
                let k = place_in(entries, n);
                if k < rest.len() {
                    assert(rest[k].name@ == n);
                }
            }
        }
        assert forall|n: Seq<char>| #[trigger] named_in(entries, n) implies map_of(entries)[n]
            == map_of(rest).insert(last.name@, last.launches)[n] by {
            let k = place_in(entries, n);
            lemma_map_at(entries, k);
            if n != last.name@ {
                assert(k < rest.len());
                lemma_map_at(rest, k);
                assert(rest[k] == entries[k]);
            } else {
                lemma_map_at(entries, entries.len() - 1);
            }
        }
        assert(map_of(entries) =~= map_of(rest).insert(last.name@, last.launches));
    }
}

/// The launches of an application, where there were any.
pub open spec fn launches_of(
    history: Map<Seq<char>, AppLaunchHistory>,
    name: Seq<char>,
) -> Option<AppLaunchHistory> {
    if history.contains_key(name) {
        Some(history[name])
    } else {
        None
    }
}

/// How many launches are recorded of an application.
pub open spec fn launch_count(history: Map<Seq<char>, AppLaunchHistory>, name: Seq<char>) -> nat {
    match launches_of(history, name) {
        Some(l) => l.count as nat,
        None => 0,
    }
}

/// Records a launch of an application at the time `now`.
pub fn record_app_launch(history: &mut LaunchHistory, app_name: &str, now: u64)
    requires
        old(history).wf(),
        launch_count(old(history)@, app_name@) < u32::MAX,
    ensures
        final(history).wf(),
        final(history)@ == old(history)@.insert(
            app_name@,
            (AppLaunchHistory {
                count: (launch_count(old(history)@, app_name@) + 1) as u32,
                last_launch: now,
            }),
        ),
{
    let count: u32 = match history.get(app_name) {
        Some(l) => l.count,
        None => 0,
    };
    history.set(app_name, AppLaunchHistory { count: count + 1, last_launch: now });
}

// ---------------------------------------------------------------------------------------
// The order of the applications
// ---------------------------------------------------------------------------------------

/// An application with the launches `la` and the name `a` is listed before one with `lb`
/// and `b`: launched ones before the others, more launches before fewer, then the later
/// last launch, then the name.
pub open spec fn listed_before(
    la: Option<AppLaunchHistory>,
    a: Seq<char>,
    lb: Option<AppLaunchHistory>,
    b: Seq<char>,
) -> bool {
    match (la, lb) {
        (Some(x), Some(y)) => x.count > y.count || (x.count == y.count && (x.last_launch
            > y.last_launch || (x.last_launch == y.last_launch && text_before(a, b)))),
        (Some(_), None) => true,
        (None, Some(_)) => false,
        (None, None) => text_before(a, b),
    }
}

/// `a` is listed before `b` under a history.
pub open spec fn ranks_before(
    history: Map<Seq<char>, AppLaunchHistory>,
    a: Seq<char>,
    b: Seq<char>,
) -> bool {
    listed_before(launches_of(history, a), a, launches_of(history, b), b)
}

/// The applications with a name, in their order.
pub open spec fn with_name(apps: Seq<AppInfo>, name: Seq<char>) -> Seq<AppInfo>
    decreases apps.len(),
{
    if apps.len() == 0 {
        Seq::<AppInfo>::empty()
    } else if apps.last().name@ == name {
        with_name(apps.drop_last(), name).push(apps.last())
    } else {
        with_name(apps.drop_last(), name)
    }
}

/// A list of applications in the order of a history.
pub open spec fn in_launch_order(
    history: Map<Seq<char>, AppLaunchHistory>,
    apps: Seq<AppInfo>,
) -> bool {
    forall|i: int, j: int|
        0 <= i < j < apps.len() ==> (#[trigger] apps[i]).name@ == (#[trigger] apps[j]).name@
            || ranks_before(history, apps[i].name@, apps[j].name@)
}

/// No application is listed before itself.
pub proof fn lemma_ranks_irreflexive(history: Map<Seq<char>, AppLaunchHistory>, a: Seq<char>)
    ensures
        !ranks_before(history, a, a),
{
    lemma_text_irreflexive(a);
}

/// The order of the applications is transitive.
pub proof fn lemma_ranks_transitive(
    history: Map<Seq<char>, AppLaunchHistory>,
    a: Seq<char>,
    b: Seq<char>,
    c: Seq<char>,
)
    requires
        ranks_before(history, a, b),
        ranks_before(history, b, c),
    ensures
        ranks_before(history, a, c),
{
    if text_before(a, b) && text_before(b, c) {
        lemma_text_transitive(a, b, c);
    }
}

/// Of two applications with different names one is listed before the other.
pub proof fn law_launch_order_total(
    history: Map<Seq<char>, AppLaunchHistory>,
    a: Seq<char>,
    b: Seq<char>,
)
    requires
        a != b,
    ensures
        ranks_before(history, a, b) != ranks_before(history, b, a),
{
    lemma_text_total(a, b);
    if text_before(a, b) {
        lemma_text_asymmetric(a, b);
    } else {
        lemma_text_asymmetric(b, a);
    }
}

/// A launch never moves an application behind one that it was listed before.
pub proof fn law_launch_never_lowers(
    history: Map<Seq<char>, AppLaunchHistory>,
    a: Seq<char>,
    b: Seq<char>,
    now: u64,
)
    requires
        ranks_before(history, a, b),
        launch_count(history, a) < u32::MAX,
    ensures
        ranks_before(
            history.insert(
                a,
                (AppLaunchHistory {
                    count: (launch_count(history, a) + 1) as u32,
                    last_launch: now,
                }),
            ),
            a,
            b,
        ),
{
    lemma_ranks_irreflexive(history, a);
}

/// Whether the application `a` is listed before `b`.
pub fn check_listed_before(
    la: Option<AppLaunchHistory>,
    a: &str,
    lb: Option<AppLaunchHistory>,
    b: &str,
) -> (r: bool)
    ensures
        r == listed_before(la, a@, lb, b@),
{
    match (la, lb) {
        (Some(x), Some(y)) => if x.count != y.count {
            x.count > y.count
        } else if x.last_launch != y.last_launch {
            x.last_launch > y.last_launch
        } else {
            rank_names(a, b) == Rank::Before
        },
        (Some(_), None) => true,
        (None, Some(_)) => false,
        (None, None) => rank_names(a, b) == Rank::Before,
    }
}

proof fn lemma_with_name_append(x: Seq<AppInfo>, y: Seq<AppInfo>, name: Seq<char>)
    ensures
        with_name(x + y, name) == with_name(x, name) + with_name(y, name),
    decreases y.len(),
{
    if y.len() == 0 {
        assert(x + y =~= x);
        assert(with_name(x, name) + with_name(y, name) =~= with_name(x, name));
    } else {
        assert((x + y).drop_last() =~= x + y.drop_last());
        lemma_with_name_append(x, y.drop_last(), name);
        assert(with_name(x + y, name) =~= with_name(x, name) + with_name(y, name));
    }
}

proof fn lemma_with_name_none(v: Seq<AppInfo>, name: Seq<char>)
    requires
        forall|i: int| 0 <= i < v.len() ==> (#[trigger] v[i]).name@ != name,
    ensures
        with_name(v, name).len() == 0,
    decreases v.len(),
{
    if v.len() > 0 {
        assert(v[v.len() - 1].name@ != name);
        assert forall|i: int| 0 <= i < v.drop_last().len() implies (#[trigger] v.drop_last()[i]).name@
            != name by {
            assert(v.drop_last()[i] == v[i]);
        }
        lemma_with_name_none(v.drop_last(), name);
    }
}

proof fn lemma_with_name_push(v: Seq<AppInfo>, x: AppInfo, name: Seq<char>)
    ensures
        with_name(v.push(x), name) == if x.name@ == name {
            with_name(v, name).push(x)
        } else {
            with_name(v, name)
        },
{
    assert(v.push(x).drop_last() =~= v);
}

proof fn lemma_with_name_insert(v: Seq<AppInfo>, at: int, x: AppInfo, name: Seq<char>)
    requires
        0 <= at <= v.len(),
        forall|i: int| at <= i < v.len() ==> (#[trigger] v[i]).name@ != x.name@,
    ensures
        with_name(v.insert(at, x), name) == if x.name@ == name {
            with_name(v, name).push(x)
        } else {
            with_name(v, name)
        },
{
    let (l, r) = (v.take(at), v.skip(at));
    assert(v =~= l + r);
    assert(v.insert(at, x) =~= l.push(x) + r);
    lemma_with_name_append(l, r, name);
    lemma_with_name_append(l.push(x), r, name);
    lemma_with_name_push(l, x, name);
    if x.name@ == name {
        assert forall|i: int| 0 <= i < r.len() implies (#[trigger] r[i]).name@ != name by {
            assert(r[i] == v[at + i]);
        }
        lemma_with_name_none(r, name);
        assert(with_name(v.insert(at, x), name) =~= with_name(v, name).push(x));
    }
}

/// Puts the applications in the order of the launch history. Applications of one name
/// keep their order.
pub fn sort_apps_by_history(apps: &mut Vec<AppInfo>, history: &LaunchHistory)
    requires
        history.wf(),
    ensures
        in_launch_order(history@, final(apps)@),
        forall|n: Seq<char>| #[trigger]
            with_name(final(apps)@, n) == with_name(old(apps)@, n),
{
    let mut out: Vec<AppInfo> = Vec::new();
    let mut keys: Vec<Option<AppLaunchHistory>> = Vec::new();
    let mut i: usize = 0;
    while i < apps.len()
        invariant
            i <= apps@.len(),
            history.wf(),
            out@.len() == keys@.len(),
            forall|k: int|
                0 <= k < out@.len() ==> keys@[k] == launches_of(
                    history@,
                    (#[trigger] out@[k]).name@,
                ),
            in_launch_order(history@, out@),
            forall|n: Seq<char>| #[trigger]
                with_name(out@, n) == with_name(apps@.take(i as int), n),
        decreases apps@.len() - i,
    {
        let app = apps[i].clone();
        let key = history.get(app.name.as_str());
        let mut lo: usize = 0;
        let mut hi: usize = out.len();
        while lo < hi
            invariant
                lo <= hi <= out@.len(),
                out@.len() == keys@.len(),
                key == launches_of(history@, app.name@),
                forall|k: int|
                    0 <= k < out@.len() ==> keys@[k] == launches_of(
                        history@,
                        (#[trigger] out@[k]).name@,
                    ),
                in_launch_order(history@, out@),
                forall|k: int|
                    0 <= k < lo ==> !ranks_before(history@, app.name@, (#[trigger] out@[k]).name@),
                forall|k: int|
                    hi <= k < out@.len() ==> ranks_before(
                        history@,
                        app.name@,
                        (#[trigger] out@[k]).name@,
                    ),
            decreases hi - lo,
        {
            let mid: usize = lo + (hi - lo) / 2;
            let ghost m = out@[mid as int].name@;
            if check_listed_before(key, app.name.as_str(), keys[mid], out[mid].name.as_str()) {
                proof {
                    assert forall|k: int| mid <= k < out@.len() implies ranks_before(
                        history@,
                        app.name@,
                        (#[trigger] out@[k]).name@,
                    ) by {
                        if k > mid && out@[k].name@ != m {
                            assert(out@[mid as int].name@ == out@[k].name@ || ranks_before(
                                history@,
                                m,
                                out@[k].name@,
                            ));
                            lemma_ranks_transitive(history@, app.name@, m, out@[k].name@);
                        }
                    }
                }
                hi = mid;
            } else {
                proof {
                    assert forall|k: int| 0 <= k < mid + 1 implies !ranks_before(
                        history@,
                        app.name@,
                        (#[trigger] out@[k]).name@,
                    ) by {
                        if k < mid && ranks_before(history@, app.name@, out@[k].name@) && out@[k].name@
                            != m {
                            assert(out@[k].name@ == out@[mid as int].name@ || ranks_before(
                                history@,
                                out@[k].name@,
                                m,
                            ));
                            lemma_ranks_transitive(history@, app.name@, out@[k].name@, m);
                        }
                    }
                }
                lo = mid + 1;
            }
        }
        let ghost before = out@;
        let ghost key_list = keys@;
        let ghost taken = apps@.take(i as int);
        proof {
            assert forall|k: int| lo <= k < before.len() implies (#[trigger] before[k]).name@
                != app.name@ by {
                lemma_ranks_irreflexive(history@, app.name@);
            }
            assert(apps@.take(i + 1) =~= taken.push(apps@[i as int]));
            assert forall|n: Seq<char>| #[trigger]
                with_name(before.insert(lo as int, app), n) == with_name(apps@.take(i + 1), n) by {
                lemma_with_name_insert(before, lo as int, app, n);
                assert(with_name(before, n) == with_name(taken, n));
                lemma_with_name_push(taken, app, n);
            }
        }
        keys.insert(lo, key);
        out.insert(lo, app);
        proof {
            let now = out@;
            assert(now =~= before.insert(lo as int, app));
            assert forall|k: int| 0 <= k < now.len() implies keys@[k] == launches_of(
                history@,
                (#[trigger] now[k]).name@,
            ) by {
                if k < lo {
                    assert(now[k] == before[k]);
                } else if k > lo {
                    assert(now[k] == before[k - 1]);
                    assert(keys@[k] == key_list[k - 1]);
                }
            }
            assert forall|a: int, b: int| 0 <= a < b < now.len() implies (#[trigger] now[a]).name@
                == (#[trigger] now[b]).name@ || ranks_before(history@, now[a].name@, now[b].name@) by {
                if b < lo {
                    assert(now[a] == before[a] && now[b] == before[b]);
                } else if b == lo {
                    assert(now[a] == before[a]);
                    if before[a].name@ != app.name@ {
                        law_launch_order_total(history@, app.name@, before[a].name@);
                    }
                } else if a < lo {
                    assert(now[a] == before[a] && now[b] == before[b - 1]);
                } else if a == lo {
                    assert(now[b] == before[b - 1]);
                } else {
                    assert(now[a] == before[a - 1] && now[b] == before[b - 1]);
                }
            }
        }
        i += 1;
    }
    proof {
        assert(apps@.take(i as int) =~= apps@);
    }
    *apps = out;
}

/// The list of applications in the order of a history is determined by the applications:
/// there is only one such list.
pub proof fn law_launch_order_unique(
    history: Map<Seq<char>, AppLaunchHistory>,
    x: Seq<AppInfo>,
    y: Seq<AppInfo>,
)
    requires
        in_launch_order(history, x),
        in_launch_order(history, y),
        forall|n: Seq<char>| #[trigger] with_name(x, n) == with_name(y, n),
    ensures
        x == y,
    decreases x.len(),
{
    if x.len() == 0 {
        if y.len() > 0 {
            let n = y.last().name@;
            assert(with_name(x, n) == with_name(y, n));
        }
        assert(x =~= y);
    } else {
        let n = x.last().name@;
        assert(with_name(x, n) == with_name(y, n));
        assert(with_name(x, n) == with_name(x.drop_last(), n).push(x.last()));
        assert(y.len() > 0) by {
            if y.len() == 0 {
                assert(with_name(y, n).len() == 0);
            }
        }
        let m = y.last().name@;
        assert(with_name(x, m) == with_name(y, m));
        if n != m {
            let i = lemma_with_name_held(x, m);
            let j = lemma_with_name_held(y, n);
            assert(ranks_before(history, x[i].name@, x[x.len() - 1].name@));
            assert(ranks_before(history, y[j].name@, y[y.len() - 1].name@));
            law_launch_order_total(history, n, m);
        }
        assert(x.last() == with_name(x, n).last());
        assert(y.last() == with_name(y, n).last());
        let (x1, y1) = (x.drop_last(), y.drop_last());
        assert forall|k: Seq<char>| #[trigger] with_name(x1, k) == with_name(y1, k) by {
            assert(with_name(x, k) == with_name(y, k));
            if n == k {
                assert(with_name(x1, k) =~= with_name(x, k).drop_last());
                assert(with_name(y1, k) =~= with_name(y, k).drop_last());
            }
        }
        assert(in_launch_order(history, x1)) by {
            assert forall|i: int, j: int| 0 <= i < j < x1.len() implies (#[trigger] x1[i]).name@ == (
            #[trigger] x1[j]).name@ || ranks_before(history, x1[i].name@, x1[j].name@) by {
                assert(x[i] == x1[i] && x[j] == x1[j]);
            }
        }
        assert(in_launch_order(history, y1)) by {
            assert forall|i: int, j: int| 0 <= i < j < y1.len() implies (#[trigger] y1[i]).name@ == (
            #[trigger] y1[j]).name@ || ranks_before(history, y1[i].name@, y1[j].name@) by {
                assert(y[i] == y1[i] && y[j] == y1[j]);
            }
        }
        law_launch_order_unique(history, x1, y1);
        assert(x =~= x1.push(x.last()));
        assert(y =~= y1.push(y.last()));
    }
}

proof fn lemma_with_name_held(v: Seq<AppInfo>, n: Seq<char>) -> (i: int)
    requires
        with_name(v, n).len() > 0,
    ensures
        0 <= i < v.len(),
        v[i].name@ == n,
    decreases v.len(),
{
    if v.last().name@ == n {
        v.len() - 1
    } else {
        lemma_with_name_held(v.drop_last(), n)
    }
}

/// In the order of a history, what was launched comes before what was not, what was launched
/// more often before what was launched less often, then what was launched later, and then
/// the names decide.
pub proof fn law_most_launched_first(
    history: Map<Seq<char>, AppLaunchHistory>,
    apps: Seq<AppInfo>,
    i: int,
    j: int,
)
    requires
        in_launch_order(history, apps),
        0 <= i < j < apps.len(),
        apps[i].name@ != apps[j].name@,
    ensures
        ({
            let a = apps[i].name@;
            let b = apps[j].name@;
            &&& history.contains_key(b) ==> history.contains_key(a)
            &&& history.contains_key(b) ==> history[a].count >= history[b].count
            &&& history.contains_key(b) && history[a].count == history[b].count
                ==> history[a].last_launch >= history[b].last_launch
            &&& history.contains_key(b) && history[a] == history[b] ==> text_before(a, b)
            &&& !history.contains_key(a) ==> text_before(a, b)
        }),
{
}

/// Two applications stand in the order of their launches, in whatever list.
pub proof fn law_order_of_two(
    history: Map<Seq<char>, AppLaunchHistory>,
    a: AppInfo,
    b: AppInfo,
)
    ensures
        history.contains_key(a.name@) && !history.contains_key(b.name@) ==> in_launch_order(
            history,
            seq![a, b],
        ),
        history.contains_key(a.name@) && history.contains_key(b.name@) && history[a.name@].count
            > history[b.name@].count ==> in_launch_order(history, seq![a, b]),
        history.contains_key(a.name@) && history.contains_key(b.name@) && history[a.name@].count
            == history[b.name@].count && history[a.name@].last_launch > history[b.name@].last_launch
            ==> in_launch_order(history, seq![a, b]),
        !history.contains_key(a.name@) && !history.contains_key(b.name@) && text_before(
            a.name@,
            b.name@,
        ) ==> in_launch_order(history, seq![a, b]),
{
    let v = seq![a, b];
    assert(v[0] == a && v[1] == b);
}

/// The applications that keep their order under a name are exactly those with the name.
pub proof fn law_with_name_picks_all(apps: Seq<AppInfo>, name: Seq<char>, p: spec_fn(AppInfo) -> bool)
    requires
        forall|a: AppInfo| #[trigger] p(a) <==> a.name@ == name,
    ensures
        with_name(apps, name) == apps.filter(p),
    decreases apps.len(),
{
    reveal(Seq::filter);
    if apps.len() > 0 {
        law_with_name_picks_all(apps.drop_last(), name, p);
        assert(p(apps.last()) <==> apps.last().name@ == name);
    }
}

/// Of several entries under one name the last counts, and an entry for one name leaves the
/// others alone.
pub proof fn law_last_entry_counts(entries: Seq<HistoryEntry>, e: HistoryEntry, other: Seq<char>)
    requires
        other != e.name@,
    ensures
        history_of(entries.push(e)).contains_key(e.name@),
        history_of(entries.push(e))[e.name@] == e.launches,
        history_of(entries.push(e)).contains_key(other) == history_of(entries).contains_key(other),
        history_of(entries).contains_key(other) ==> history_of(entries.push(e))[other]
            == history_of(entries)[other],
{
    assert(entries.push(e).drop_last() =~= entries);
}

/// An application that was never launched counts no launches, and every other as many as its
/// history says.
pub proof fn law_launches_counted(
    history: Map<Seq<char>, AppLaunchHistory>,
    name: Seq<char>,
    launches: AppLaunchHistory,
)
    ensures
        !history.contains_key(name) ==> launch_count(history, name) == 0,
        launch_count(history.insert(name, launches), name) == launches.count,
{
}

} // verus!
