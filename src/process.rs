//! The process sweep: case-insensitive lookup of running processes by name
//! in a snapshot of the process table, and termination of the matches,
//! tolerating failure on any one of them.

use vstd::prelude::*;
use sysinfo::{PidExt, ProcessExt, System, SystemExt};
use crate::text::{chars_of, contains_seq, slice_contains};

verus! {

#[verifier::external_type_specification]
#[verifier::external_body]
pub struct ExSystem(System);

/// The process table of a snapshot: each process id with its process name.
pub uninterp spec fn process_table(s: System) -> Map<u32, Seq<char>>;

/// What `str::to_lowercase` makes of `s`.
pub uninterp spec fn lower_of(s: Seq<char>) -> Seq<char>;

/// One process of a snapshot.
#[derive(Clone, Debug)]
pub struct ProcessInfo {
    pub name: String,
    pub pid: u32,
    pub exe: Option<String>,
}

/// The outcome of a process command, with a message for the user.
pub struct ProcessResult {
    pub success: bool,
    pub message: String,
    pub processes: Option<Vec<ProcessInfo>>,
    pub killed_count: Option<u32>,
}

/// Relies on `str::to_lowercase`: the result depends on the characters alone.
#[verifier::external_body]
fn to_lower(s: &str) -> (r: String)
    ensures
        r@ == lower_of(s@),
{
    s.to_lowercase()
}

/// Relies on `SystemExt::refresh_all`: re-reads the process table from the
/// operating system.
#[verifier::external_body]
fn refresh_all(sys: &mut System) {
    sys.refresh_all()
}

/// No two entries of `s` share a process id.
pub open spec fn distinct_pids(s: Seq<ProcessInfo>) -> bool {
    forall|i: int, j: int| 0 <= i < s.len() && 0 <= j < s.len() && i != j ==> #[trigger] s[i].pid != #[trigger] s[j].pid
}

/// Some entry of `r` has the process id `pid`.
pub open spec fn lists_pid(r: Seq<ProcessInfo>, pid: u32) -> bool {
    exists|i: int| 0 <= i < r.len() && #[trigger] r[i].pid == pid
}

/// Every process of the snapshot `sys` whose name matches `q` is listed in `r`.
pub open spec fn complete_for(sys: System, r: Seq<ProcessInfo>, q: Seq<char>) -> bool {
    forall|pid: u32|
        process_table(sys).contains_key(pid) && name_matches(process_table(sys)[pid], q) ==> #[trigger] lists_pid(r, pid)
}

/// Relies on `SystemExt::processes`: one entry per process of the table,
/// with its id and name (its executable path as well).
#[verifier::external_body]
fn list_processes(sys: &System) -> (r: Vec<ProcessInfo>)
    ensures
        forall|i: int|
            0 <= i < r@.len() ==> process_table(*sys).contains_key(#[trigger] r@[i].pid)
                && process_table(*sys)[r@[i].pid] == r@[i].name@,
        forall|pid: u32|
            process_table(*sys).contains_key(pid) ==> exists|i: int|
                0 <= i < r@.len() && #[trigger] r@[i].pid == pid,
        distinct_pids(r@),
        r@.len() == process_table(*sys).len(),
{
    sys.processes().iter().map(
        |(pid, p)|
            ProcessInfo {
                name: p.name().to_string(),
                pid: pid.as_u32(),
                exe: Some(p.exe().to_string_lossy().to_string()),
            },
    ).collect()
}

/// Relies on `SystemExt::process` and `ProcessExt::kill`: a process id
/// missing from the table gives `false`; else the operating system decides.
#[verifier::external_body]
fn kill_pid(sys: &System, pid: u32) -> (r: bool)
    ensures
        r ==> process_table(*sys).contains_key(pid),
{
    match sys.process(sysinfo::Pid::from_u32(pid)) {
        Some(p) => p.kill(),
        None => false,
    }
}

/// Relies on `SystemExt::processes` and `HashMap::len`: the size of the table.
#[verifier::external_body]
fn table_len(sys: &System) -> (r: usize)
    ensures
        r == process_table(*sys).len(),
{
    sys.processes().len()
}

/// Whether the process name `name` matches the query `query`: the query,
/// lower-cased, occurs in the lower-cased name.
pub open spec fn name_matches(name: Seq<char>, query: Seq<char>) -> bool {
    contains_seq(lower_of(name), lower_of(query))
}

/// The processes of `ps` whose names match `query`, in order.
pub open spec fn matching(ps: Seq<ProcessInfo>, query: Seq<char>) -> Seq<ProcessInfo>
    decreases ps.len(),
{
    if ps.len() == 0 {
        ps
    } else {
        let m = matching(ps.drop_last(), query);
        if name_matches(ps.last().name@, query) {
            m.push(ps.last())
        } else {
            m
        }
    }
}

/// The number of `true` outcomes.
pub open spec fn count_true(outcomes: Seq<bool>) -> nat
    decreases outcomes.len(),
{
    if outcomes.len() == 0 {
        0
    } else {
        count_true(outcomes.drop_last()) + if outcomes.last() {
            1nat
        } else {
            0nat
        }
    }
}

/// What holds of every process reported from the snapshot `sys` for the query `q`.
pub open spec fn listed_match(sys: System, p: ProcessInfo, q: Seq<char>) -> bool {
    process_table(sys).contains_key(p.pid) && process_table(sys)[p.pid] == p.name@
        && name_matches(p.name@, q)
}

proof fn lemma_matching_members(ps: Seq<ProcessInfo>, q: Seq<char>)
    ensures
        forall|i: int|
            0 <= i < matching(ps, q).len() ==> ps.contains(#[trigger] matching(ps, q)[i])
                && name_matches(matching(ps, q)[i].name@, q),
        forall|j: int|
            0 <= j < ps.len() && name_matches(ps[j].name@, q) ==> matching(ps, q).contains(
                #[trigger] ps[j],
            ),
    decreases ps.len(),
{
    if ps.len() > 0 {
        let pre = ps.drop_last();
        lemma_matching_members(pre, q);
        let m = matching(pre, q);
        assert forall|i: int| 0 <= i < matching(ps, q).len() implies ps.contains(
            #[trigger] matching(ps, q)[i],
        ) && name_matches(matching(ps, q)[i].name@, q) by {
            if i < m.len() {
                let k = choose|k: int| 0 <= k < pre.len() && pre[k] == m[i];
                assert(ps[k] == m[i]);
            } else {
                assert(ps[ps.len() - 1] == ps.last());
            }
        }
        assert forall|j: int| 0 <= j < ps.len() && name_matches(ps[j].name@, q) implies matching(
            ps,
            q,
        ).contains(#[trigger] ps[j]) by {
            if j < ps.len() - 1 {
                assert(pre[j] == ps[j]);
                let k = choose|k: int| 0 <= k < m.len() && m[k] == pre[j];
                if name_matches(ps.last().name@, q) {
                    assert(matching(ps, q)[k] == m[k]);
                }
            } else {
                assert(matching(ps, q).last() == ps[j]);
                assert(matching(ps, q)[matching(ps, q).len() - 1] == ps[j]);
            }
        }
    }
}

proof fn lemma_matching_distinct(ps: Seq<ProcessInfo>, q: Seq<char>)
    requires
        distinct_pids(ps),
    ensures
        distinct_pids(matching(ps, q)),
    decreases ps.len(),
{
    if ps.len() > 0 {
        let pre = ps.drop_last();
        assert forall|i: int, j: int| 0 <= i < pre.len() && 0 <= j < pre.len() && i != j implies #[trigger] pre[i].pid != #[trigger] pre[j].pid by {
            assert(pre[i] == ps[i] && pre[j] == ps[j]);
        }
        lemma_matching_distinct(pre, q);
        lemma_matching_members(pre, q);
        let m = matching(pre, q);
        if name_matches(ps.last().name@, q) {
            let mp = m.push(ps.last());
            assert forall|i: int| 0 <= i < m.len() implies m[i].pid != ps.last().pid by {
                assert(pre.contains(m[i]));
                let k = choose|k: int| 0 <= k < pre.len() && pre[k] == m[i];
                assert(ps[k] == pre[k]);
                assert(ps[ps.len() - 1] == ps.last());
            }
            assert forall|i: int, j: int| 0 <= i < mp.len() && 0 <= j < mp.len() && i != j implies #[trigger] mp[i].pid != #[trigger] mp[j].pid by {
                if i < m.len() && j < m.len() {
                    assert(mp[i] == m[i] && mp[j] == m[j]);
                } else if i < m.len() {
                    assert(mp[i] == m[i]);
                } else {
                    assert(mp[j] == m[j]);
                }
            }
        }
    }
}

/// Whether `folded_query` occurs in `folded_name`, both already lower-cased.
pub fn matches_folded(folded_name: &str, folded_query: &str) -> (r: bool)
    ensures
        r == contains_seq(folded_name@, folded_query@),
{
    slice_contains(&chars_of(folded_name), &chars_of(folded_query))
}

fn copy_info(p: &ProcessInfo) -> (r: ProcessInfo)
    ensures
        r == *p,
{
    ProcessInfo {
        name: p.name.clone(),
        pid: p.pid,
        exe: match &p.exe {
            Some(e) => Some(e.clone()),
            None => None,
        },
    }
}

/// The processes of `procs` whose names match `name` case-insensitively, in order.
pub fn select_matching(procs: &Vec<ProcessInfo>, name: &str) -> (r: Vec<ProcessInfo>)
    ensures
        r@ == matching(procs@, name@),
{
    let query = to_lower(name);
    let mut out: Vec<ProcessInfo> = Vec::new();
    let mut i: usize = 0;
    while i < procs.len()
        invariant
            i <= procs@.len(),
            query@ == lower_of(name@),
            out@ == matching(procs@.take(i as int), name@),
        decreases procs@.len() - i,
    {
        assert(procs@.take(i + 1).drop_last() =~= procs@.take(i as int));
        assert(procs@.take(i + 1).last() == procs@[i as int]);
        let folded = to_lower(procs[i].name.as_str());
        if matches_folded(folded.as_str(), query.as_str()) {
            out.push(copy_info(&procs[i]));
        }
        i = i + 1;
    }
    assert(procs@.take(procs@.len() as int) =~= procs@);
    out
}

/// Re-reads the process table into the snapshot.
pub fn refresh_system(sys: &mut System) {
    refresh_all(sys);
}

/// The processes of the snapshot whose names match `name` case-insensitively:
/// each one reported is in the table under its name, and each matching
/// process of the table is reported, once.
pub fn find_processes_by_name(sys: &System, name: &str) -> (r: Vec<ProcessInfo>)
    ensures
        forall|i: int| 0 <= i < r@.len() ==> listed_match(*sys, #[trigger] r@[i], name@),
        forall|pid: u32|
            process_table(*sys).contains_key(pid) && name_matches(process_table(*sys)[pid], name@)
                ==> exists|i: int| 0 <= i < r@.len() && #[trigger] r@[i].pid == pid,
        complete_for(*sys, r@, name@),
        distinct_pids(r@),
{
    let all = list_processes(sys);
    let r = select_matching(&all, name);
    proof {
        lemma_matching_distinct(all@, name@);
        lemma_matching_members(all@, name@);
        assert forall|i: int| 0 <= i < r@.len() implies listed_match(*sys, #[trigger] r@[i], name@) by {
            assert(all@.contains(r@[i]));
        }
        assert forall|pid: u32|
            process_table(*sys).contains_key(pid) && name_matches(process_table(*sys)[pid], name@)
            implies exists|i: int| 0 <= i < r@.len() && #[trigger] r@[i].pid == pid by {
            let j = choose|j: int| 0 <= j < all@.len() && #[trigger] all@[j].pid == pid;
            assert(matching(all@, name@).contains(all@[j]));
        }
        assert forall|pid: u32|
            process_table(*sys).contains_key(pid) && name_matches(process_table(*sys)[pid], name@)
            implies #[trigger] lists_pid(r@, pid) by {
            let i = choose|i: int| 0 <= i < r@.len() && #[trigger] r@[i].pid == pid;
        }
    }
    r
}

/// Asks the operating system to end the process `pid`; `false` where it is
/// not in the snapshot or the request failed.
pub fn kill_process(sys: &System, pid: u32) -> (r: bool)
    ensures
        r ==> process_table(*sys).contains_key(pid),
{
    kill_pid(sys, pid)
}

/// Asks to end each process of `procs`, one by one, whatever became of the
/// others: the outcome of each, in order.
pub fn kill_listed(sys: &System, procs: &Vec<ProcessInfo>) -> (r: Vec<bool>)
    ensures
        r@.len() == procs@.len(),
        forall|i: int| 0 <= i < r@.len() && #[trigger] r@[i] ==> process_table(*sys).contains_key(
            procs@[i].pid,
        ),
{
    let mut out: Vec<bool> = Vec::new();
    let mut i: usize = 0;
    while i < procs.len()
        invariant
            i <= procs@.len(),
            out@.len() == i,
            forall|k: int| 0 <= k < i && #[trigger] out@[k] ==> process_table(*sys).contains_key(
                procs@[k].pid,
            ),
        decreases procs@.len() - i,
    {
        let ok = kill_pid(sys, procs[i].pid);
        out.push(ok);
        i = i + 1;
    }
    out
}

/// The number of confirmed terminations among `outcomes`.
pub fn count_confirmed(outcomes: &Vec<bool>) -> (r: usize)
    ensures
        r == count_true(outcomes@),
        r <= outcomes@.len(),
{
    let mut n: usize = 0;
    let mut i: usize = 0;
    while i < outcomes.len()
        invariant
            i <= outcomes@.len(),
            n <= i,
            n == count_true(outcomes@.take(i as int)),
        decreases outcomes@.len() - i,
    {
        assert(outcomes@.take(i + 1).drop_last() =~= outcomes@.take(i as int));
        if outcomes[i] {
            n = n + 1;
        }
        i = i + 1;
    }
    assert(outcomes@.take(outcomes@.len() as int) =~= outcomes@);
    n
}

/// Ends every process whose name matches `name`, each independently of the
/// others, and returns how many terminations were confirmed (at most
/// `u32::MAX`): only processes present in the table can count.
pub fn kill_processes_by_name(sys: &System, name: &str) -> (r: u32)
    ensures
        exists|found: Seq<ProcessInfo>, outcomes: Seq<bool>|
            {
                &&& outcomes.len() == found.len()
                &&& distinct_pids(found)
                &&& complete_for(*sys, found, name@)
                &&& count_true(outcomes) <= found.len()
                &&& forall|i: int| 0 <= i < found.len() ==> listed_match(*sys, #[trigger] found[i], name@)
                &&& forall|i: int| 0 <= i < outcomes.len() && #[trigger] outcomes[i] ==> process_table(*sys).contains_key(found[i].pid)
                &&& r == if count_true(outcomes) > u32::MAX { u32::MAX as nat } else { count_true(outcomes) }
            },
{
    let found = find_processes_by_name(sys, name);
    let outcomes = kill_listed(sys, &found);
    let n = count_confirmed(&outcomes);
    let r: u32 = if n > u32::MAX as usize {
        u32::MAX
    } else {
        n as u32
    };
    assert(outcomes@.len() == found@.len());
    r
}

/// What holds of every process reported for the list of queries `names`:
/// it is reported for one of them.
pub open spec fn listed_for_some(sys: System, p: ProcessInfo, names: Seq<String>) -> bool {
    exists|k: int| #![trigger names[k]] 0 <= k < names.len() && listed_match(sys, p, names[k]@)
}

proof fn lemma_complete_extends(sys: System, r: Seq<ProcessInfo>, r2: Seq<ProcessInfo>, q: Seq<char>)
    requires
        complete_for(sys, r, q),
        r.len() <= r2.len(),
        forall|t: int| 0 <= t < r.len() ==> r2[t] == r[t],
    ensures
        complete_for(sys, r2, q),
{
    assert forall|pid: u32|
        process_table(sys).contains_key(pid) && name_matches(process_table(sys)[pid], q) implies #[trigger] lists_pid(r2, pid) by {
        assert(lists_pid(r, pid));
        let i = choose|i: int| 0 <= i < r.len() && #[trigger] r[i].pid == pid;
        assert(r2[i] == r[i]);
    }
}

/// The processes of the snapshot matching any of `app_names`, name by
/// name: each one listed matches one of the names, and for each name every
/// matching process is listed.
pub fn running_among(sys: &System, app_names: &Vec<String>) -> (r: Vec<ProcessInfo>)
    ensures
        forall|i: int| 0 <= i < r@.len() ==> listed_for_some(*sys, #[trigger] r@[i], app_names@),
        forall|k: int| 0 <= k < app_names@.len() ==> complete_for(*sys, r@, #[trigger] app_names@[k]@),
{
    let mut running: Vec<ProcessInfo> = Vec::new();
    let mut j: usize = 0;
    while j < app_names.len()
        invariant
            j <= app_names@.len(),
            forall|i: int|
                0 <= i < running@.len() ==> listed_for_some(*sys, #[trigger] running@[i], app_names@.take(j as int)),
            forall|k: int| 0 <= k < j ==> complete_for(*sys, running@, #[trigger] app_names@[k]@),
        decreases app_names@.len() - j,
    {
        let found = find_processes_by_name(sys, app_names[j].as_str());
        let ghost names_now = app_names@.take(j + 1);
        let ghost base = running@;
        assert(names_now[j as int] == app_names@[j as int]);
        assert forall|i: int| 0 <= i < running@.len() implies listed_for_some(*sys, #[trigger] running@[i], names_now) by {
            let k = choose|k: int| 0 <= k < j && listed_match(*sys, running@[i], app_names@.take(j as int)[k]@);
            assert(names_now[k] == app_names@.take(j as int)[k]);
        }
        let mut i: usize = 0;
        while i < found.len()
            invariant
                i <= found@.len(),
                j < app_names@.len(),
                names_now == app_names@.take(j + 1),
                names_now[j as int] == app_names@[j as int],
                forall|m: int| 0 <= m < found@.len() ==> listed_match(*sys, #[trigger] found@[m], app_names@[j as int]@),
                forall|m: int| 0 <= m < running@.len() ==> listed_for_some(*sys, #[trigger] running@[m], names_now),
                running@.len() == base.len() + i,
                forall|t: int| 0 <= t < base.len() ==> #[trigger] running@[t] == base[t],
                forall|m: int| 0 <= m < i ==> #[trigger] running@[base.len() + m] == found@[m],
            decreases found@.len() - i,
        {
            let ghost before = running@;
            running.push(copy_info(&found[i]));
            assert forall|m: int| 0 <= m < running@.len() implies listed_for_some(*sys, #[trigger] running@[m], names_now) by {
                if m < before.len() {
                    assert(running@[m] == before[m]);
                } else {
                    assert(listed_match(*sys, running@[m], names_now[j as int]@));
                }
            }
            assert forall|t: int| 0 <= t < base.len() implies #[trigger] running@[t] == base[t] by {
                assert(running@[t] == before[t]);
            }
            assert forall|m: int| 0 <= m < i + 1 implies #[trigger] running@[base.len() + m] == found@[m] by {
                if m < i {
                    assert(running@[base.len() + m] == before[base.len() + m]);
                }
            }
            i = i + 1;
        }
        assert forall|k: int| 0 <= k < j + 1 implies complete_for(*sys, running@, #[trigger] app_names@[k]@) by {
            if k < j {
                lemma_complete_extends(*sys, base, running@, app_names@[k]@);
            } else {
                assert forall|pid: u32|
                    process_table(*sys).contains_key(pid) && name_matches(process_table(*sys)[pid], app_names@[k]@)
                    implies #[trigger] lists_pid(running@, pid) by {
                    assert(lists_pid(found@, pid));
                    let m = choose|m: int| 0 <= m < found@.len() && #[trigger] found@[m].pid == pid;
                    assert(running@[base.len() + m] == found@[m]);
                }
            }
        }
        j = j + 1;
    }
    assert(app_names@.take(app_names@.len() as int) =~= app_names@);
    running
}

/// Refreshes the snapshot, then the processes matching any of `app_names`,
/// name by name, as `running_among` gives them for the refreshed snapshot.
pub fn get_running_apps(sys: &mut System, app_names: &Vec<String>) -> (r: Vec<ProcessInfo>)
    ensures
        forall|i: int| 0 <= i < r@.len() ==> listed_for_some(*final(sys), #[trigger] r@[i], app_names@),
        forall|k: int| 0 <= k < app_names@.len() ==> complete_for(*final(sys), r@, #[trigger] app_names@[k]@),
{
    refresh_all(sys);
    running_among(sys, app_names)
}

/// Whether some process of the snapshot matches `name`.
pub fn is_app_running(sys: &System, name: &str) -> (r: bool)
    ensures
        r == exists|pid: u32|
            process_table(*sys).contains_key(pid) && name_matches(
                #[trigger] process_table(*sys)[pid],
                name@,
            ),
{
    let found = find_processes_by_name(sys, name);
    if found.len() > 0 {
        assert(listed_match(*sys, found@[0], name@));
    }
    found.len() > 0
}

/// Every process of the snapshot, once.
pub fn get_all_running_processes(sys: &System) -> (r: Vec<ProcessInfo>)
    ensures
        distinct_pids(r@),
        r@.len() == process_table(*sys).len(),
        forall|i: int|
            0 <= i < r@.len() ==> process_table(*sys).contains_key(#[trigger] r@[i].pid)
                && process_table(*sys)[r@[i].pid] == r@[i].name@,
        forall|pid: u32|
            process_table(*sys).contains_key(pid) ==> exists|i: int|
                0 <= i < r@.len() && #[trigger] r@[i].pid == pid,
{
    list_processes(sys)
}

/// The number of processes in the snapshot.
pub fn get_process_count(sys: &System) -> (r: usize)
    ensures
        r == process_table(*sys).len(),
{
    table_len(sys)
}

/// How many of `found` are present in `table`.
pub open spec fn count_present(table: Map<u32, Seq<char>>, found: Seq<ProcessInfo>) -> nat
    decreases found.len(),
{
    if found.len() == 0 {
        0
    } else {
        count_present(table, found.drop_last()) + if table.contains_key(found.last().pid) {
            1nat
        } else {
            0nat
        }
    }
}

/// A sweep over a mix of present and missing processes confirms at most
/// as many terminations as there were processes present: a missing one
/// never counts.
pub proof fn lemma_sweep_counts_present(
    table: Map<u32, Seq<char>>,
    found: Seq<ProcessInfo>,
    outcomes: Seq<bool>,
)
    requires
        outcomes.len() == found.len(),
        forall|i: int| 0 <= i < outcomes.len() && #[trigger] outcomes[i] ==> table.contains_key(found[i].pid),
    ensures
        count_true(outcomes) <= count_present(table, found),
    decreases found.len(),
{
    if found.len() > 0 {
        let n = (found.len() - 1) as int;
        assert forall|i: int| 0 <= i < outcomes.drop_last().len() && #[trigger] outcomes.drop_last()[i] implies table.contains_key(found.drop_last()[i].pid) by {
            assert(outcomes[i] == outcomes.drop_last()[i]);
        }
        lemma_sweep_counts_present(table, found.drop_last(), outcomes.drop_last());
        if outcomes.last() {
            assert(outcomes[n]);
        }
    }
}

} // verus!
