//! Per-process memory records and the snapshot collector's verified
//! decisions: parsing one process's memory-map report, building
//! records, keeping only the readable processes, and ordering the
//! snapshot by swap use.

use vstd::prelude::*;
use vstd::string::StringSliceAdditionalSpecFns;

use crate::Error;
use crate::utils::all_digits;
use crate::utils::clean_command;
use crate::utils::clean_spec;
use crate::utils::clip;
use crate::utils::dec_val;
use crate::utils::eq_range;
use crate::utils::find_line_brk;
use crate::utils::find_token_end;
use crate::utils::lemma_line_brk;
use crate::utils::line_brk;
use crate::utils::number_after;
use crate::utils::parse_digit_run;
use crate::utils::parse_number_after;
use crate::utils::skip_spaces;
use crate::utils::tok1;
use crate::utils::tok_end;
use crate::utils::ws_end;

verus! {

/// The labels a memory-map report is summed by.  `Private_Clean:`
/// and `Private_Dirty:` together make up the unique set size.
pub open spec fn is_sm_label(t: Seq<u8>) -> bool {
    ||| t == "Rss:".spec_bytes()
    ||| t == "Pss:".spec_bytes()
    ||| t == "Private_Clean:".spec_bytes()
    ||| t == "Private_Dirty:".spec_bytes()
    ||| t == "Swap:".spec_bytes()
}

/// The numeric field of a mapping line: the first token after the
/// label, 0 when the label stands alone, `None` when malformed.
pub open spec fn sm_val(l: Seq<u8>) -> Option<u64> {
    number_after(l, tok_end(l, ws_end(l, 0)))
}

/// The value a mapping line contributes (only consulted on lines
/// that parse).
pub open spec fn sm_val_or0(l: Seq<u8>) -> u64 {
    match sm_val(l) {
        Some(v) => v,
        None => 0,
    }
}

/// A memory-map report parses from `from` on when every line that
/// starts with a known label carries a well-formed numeric field.
pub open spec fn sm_ok_from(s: Seq<u8>, from: int) -> bool
    decreases s.len() - from
        when 0 <= from <= s.len()
{
    if from >= s.len() {
        true
    } else {
        let e = line_brk(s, from);
        proof {
            lemma_line_brk(s, from);
        }
        let l = s.subrange(from, e);
        &&& (is_sm_label(tok1(l)) ==> sm_val(l) is Some)
        &&& sm_ok_from(s, if e >= s.len() { s.len() as int } else { e + 1 })
    }
}

/// A memory-map report parses as a whole.
pub open spec fn sm_ok(s: Seq<u8>) -> bool {
    sm_ok_from(s, 0)
}

/// Sum of the values of every line labelled `label` at or after
/// `from`, on top of `cur`: repeated mapping blocks accumulate.
pub open spec fn sm_sum_from(s: Seq<u8>, from: int, label: Seq<u8>, cur: nat) -> nat
    decreases s.len() - from
        when 0 <= from <= s.len()
{
    if from >= s.len() {
        cur
    } else {
        let e = line_brk(s, from);
        proof {
            lemma_line_brk(s, from);
        }
        let l = s.subrange(from, e);
        sm_sum_from(
            s,
            if e >= s.len() {
                s.len() as int
            } else {
                e + 1
            },
            label,
            if tok1(l) == label {
                cur + sm_val_or0(l) as nat
            } else {
                cur
            },
        )
    }
}

/// Sum of the values of every line of `s` labelled `label`.
pub open spec fn sm_sum(s: Seq<u8>, label: Seq<u8>) -> nat {
    sm_sum_from(s, 0, label, 0)
}

/// One process's aggregated memory use, all sizes in kB.
#[derive(Clone)]
pub struct ProcessMemoryStats {
    pub pid: u32,
    pub username: String,
    pub command: String,
    pub swap: u64,
    pub uss: u64,
    pub pss: u64,
    pub rss: u64,
}

/// `m` holds exactly what a successful parse of `smaps` reports for
/// process `pid` with raw command line `cmd`: each size is the sum of
/// its label's lines (the unique set size sums both private labels),
/// clipped into `u64`.
pub open spec fn parsed_stats(
    m: ProcessMemoryStats,
    pid: u32,
    cmd: Seq<char>,
    smaps: Seq<u8>,
) -> bool {
    &&& m.pid == pid
    &&& m.command@ == clean_spec(cmd)
    &&& m.rss == clip(sm_sum(smaps, "Rss:".spec_bytes()) as int)
    &&& m.pss == clip(sm_sum(smaps, "Pss:".spec_bytes()) as int)
    &&& m.uss == clip(
        sm_sum(smaps, "Private_Clean:".spec_bytes()) as int + sm_sum(
            smaps,
            "Private_Dirty:".spec_bytes(),
        ) as int,
    )
    &&& m.swap == clip(sm_sum(smaps, "Swap:".spec_bytes()) as int)
}

impl ProcessMemoryStats {
    /// A fresh, empty record.
    pub fn new() -> (r: Self)
        ensures
            r.pid == 0,
            r.username@ == Seq::<char>::empty(),
            r.command@ == Seq::<char>::empty(),
            r.swap == 0,
            r.uss == 0,
            r.pss == 0,
            r.rss == 0,
    {
        ProcessMemoryStats {
            pid: 0,
            username: String::new(),
            command: String::new(),
            swap: 0,
            uss: 0,
            pss: 0,
            rss: 0,
        }
    }

    /// Fills the record for process `pid` from its raw command line
    /// and the text of its memory-map report.  Every line whose first
    /// token is a known label accumulates into the matching size (the
    /// two private labels both into `uss`); other lines are ignored.
    /// A malformed numeric field fails the parse and leaves the
    /// record untouched.
    pub fn update(&mut self, pid: &u32, cmdline: &str, smaps: &[u8]) -> (r: Result<(), Error>)
        ensures
            match r {
                Ok(()) => {
                    &&& sm_ok(smaps@)
                    &&& parsed_stats(*final(self), *pid, cmdline@, smaps@)
                    &&& final(self).username == old(self).username
                },
                Err(e) => {
                    &&& e == Error::BadNumber
                    &&& !sm_ok(smaps@)
                    &&& *final(self) == *old(self)
                },
            },
    {
        let n = smaps.len();
        let mut pos: usize = 0;
        let mut rss: u64 = 0;
        let mut pss: u64 = 0;
        let mut uss: u64 = 0;
        let mut swap: u64 = 0;
        let ghost mut g_rss: nat = 0;
        let ghost mut g_pss: nat = 0;
        let ghost mut g_pc: nat = 0;
        let ghost mut g_pd: nat = 0;
        let ghost mut g_swap: nat = 0;
        while pos < n
            invariant
                pos <= n,
                n == smaps@.len(),
                sm_ok(smaps@) == sm_ok_from(smaps@, pos as int),
                sm_sum(smaps@, "Rss:".spec_bytes()) == sm_sum_from(
                    smaps@,
                    pos as int,
                    "Rss:".spec_bytes(),
                    g_rss,
                ),
                sm_sum(smaps@, "Pss:".spec_bytes()) == sm_sum_from(
                    smaps@,
                    pos as int,
                    "Pss:".spec_bytes(),
                    g_pss,
                ),
                sm_sum(smaps@, "Private_Clean:".spec_bytes()) == sm_sum_from(
                    smaps@,
                    pos as int,
                    "Private_Clean:".spec_bytes(),
                    g_pc,
                ),
                sm_sum(smaps@, "Private_Dirty:".spec_bytes()) == sm_sum_from(
                    smaps@,
                    pos as int,
                    "Private_Dirty:".spec_bytes(),
                    g_pd,
                ),
                sm_sum(smaps@, "Swap:".spec_bytes()) == sm_sum_from(
                    smaps@,
                    pos as int,
                    "Swap:".spec_bytes(),
                    g_swap,
                ),
                rss == clip(g_rss as int),
                pss == clip(g_pss as int),
                uss == clip((g_pc + g_pd) as int),
                swap == clip(g_swap as int),
            decreases n - pos,
        {
            let e = find_line_brk(smaps, pos);
            let line = &smaps[pos..e];
            let ghost l = smaps@.subrange(pos as int, e as int);
            let a1 = skip_spaces(line, 0);
            let b1 = find_token_end(line, a1);
            proof {
                assert(tok1(l) == l.subrange(a1 as int, b1 as int));
            }
            let m_rss = eq_range(line, a1, b1, "Rss:".as_bytes());
            let m_pss = eq_range(line, a1, b1, "Pss:".as_bytes());
            let m_pc = eq_range(line, a1, b1, "Private_Clean:".as_bytes());
            let m_pd = eq_range(line, a1, b1, "Private_Dirty:".as_bytes());
            let m_swap = eq_range(line, a1, b1, "Swap:".as_bytes());
            let any = m_rss || m_pss || m_pc || m_pd || m_swap;
            proof {
                assert(any == is_sm_label(tok1(l)));
            }
            if any {
                let v = match parse_number_after(line, b1) {
                    Ok(v) => v,
                    Err(er) => {
                        proof {
                            assert(sm_val(l) is None);
                            assert(!sm_ok_from(smaps@, pos as int));
                        }
                        return Err(er);
                    },
                };
                proof {
                    assert(sm_val(l) == Some(v));
                }
                if m_rss {
                    rss = rss.saturating_add(v);
                    proof {
                        g_rss = g_rss + v as nat;
                    }
                }
                if m_pss {
                    pss = pss.saturating_add(v);
                    proof {
                        g_pss = g_pss + v as nat;
                    }
                }
                if m_pc {
                    uss = uss.saturating_add(v);
                    proof {
                        g_pc = g_pc + v as nat;
                    }
                }
                if m_pd {
                    uss = uss.saturating_add(v);
                    proof {
                        g_pd = g_pd + v as nat;
                    }
                }
                if m_swap {
                    swap = swap.saturating_add(v);
                    proof {
                        g_swap = g_swap + v as nat;
                    }
                }
            }
            pos = if e < n {
                e + 1
            } else {
                n
            };
        }
        self.pid = *pid;
        self.command = clean_command(cmdline);
        self.rss = rss;
        self.pss = pss;
        self.uss = uss;
        self.swap = swap;
        Ok(())
    }
}

/// One process in the snapshot: its identifier, display command and
/// aggregated memory use.
pub struct Process {
    pub pid: u32,
    pub command: String,
    pub memory: ProcessMemoryStats,
}

impl Process {
    /// Builds the record of one process from plain values read out of
    /// the process table: its PID, the raw command-line text and the
    /// text of its memory-map report.
    pub fn new(pid: u32, cmdline: &str, smaps: &[u8]) -> (r: Result<Process, Error>)
        ensures
            match r {
                Ok(p) => {
                    &&& p.pid == pid
                    &&& p.command@ == clean_spec(cmdline@)
                    &&& parsed_stats(p.memory, pid, cmdline@, smaps@)
                    &&& sm_ok(smaps@)
                },
                Err(e) => e == Error::BadNumber && !sm_ok(smaps@),
            },
    {
        let mut process = Process {
            pid,
            command: String::new(),
            memory: ProcessMemoryStats::new(),
        };
        match process.update(cmdline, smaps) {
            Ok(()) => Ok(process),
            Err(e) => Err(e),
        }
    }

    /// Refreshes the record from freshly read raw texts; the
    /// identifier stays.  A failed parse leaves the record untouched.
    pub fn update(&mut self, cmdline: &str, smaps: &[u8]) -> (r: Result<(), Error>)
        ensures
            final(self).pid == old(self).pid,
            match r {
                Ok(()) => {
                    &&& final(self).command@ == clean_spec(cmdline@)
                    &&& parsed_stats(final(self).memory, old(self).pid, cmdline@, smaps@)
                    &&& sm_ok(smaps@)
                },
                Err(e) => {
                    &&& e == Error::BadNumber
                    &&& !sm_ok(smaps@)
                    &&& *final(self) == *old(self)
                },
            },
    {
        let pid = self.pid;
        match self.memory.update(&pid, cmdline, smaps) {
            Ok(()) => {},
            Err(e) => {
                return Err(e);
            },
        }
        self.command = clean_command(cmdline);
        Ok(())
    }
}

/// A process-table entry name that is a PID: a non-empty run of
/// decimal digits whose value fits in a `u32`.
pub open spec fn pid_of(name: Seq<u8>) -> Option<u32> {
    if name.len() > 0 && all_digits(name) && dec_val(name) <= u32::MAX {
        Some(dec_val(name) as u32)
    } else {
        None
    }
}

/// Reads a process-table entry name as a PID; `None` for the
/// non-numeric entries, which are not processes.
pub fn parse_pid(name: &str) -> (r: Option<u32>)
    ensures
        r == pid_of(name.spec_bytes()),
{
    let b = name.as_bytes();
    proof {
        assert(b@.subrange(0, b@.len() as int) =~= b@);
    }
    match parse_digit_run(b, 0, b.len()) {
        Ok(v) => {
            if v <= 0xffff_ffff {
                Some(v as u32)
            } else {
                None
            }
        },
        Err(_) => None,
    }
}

/// The records of the work units that completed: a `None` slot (a
/// process that vanished or could not be read) contributes nothing.
pub open spec fn somes(s: Seq<Option<Process>>) -> Seq<Process>
    decreases s.len(),
{
    if s.len() == 0 {
        Seq::empty()
    } else {
        match s[0] {
            Some(p) => seq![p] + somes(s.drop_first()),
            None => somes(s.drop_first()),
        }
    }
}

/// Records stand in ascending order of swap use.
pub open spec fn sorted_by_swap(s: Seq<Process>) -> bool {
    forall|i: int, j: int|
        0 <= i <= j < s.len() ==> #[trigger] s[i].memory.swap <= #[trigger] s[j].memory.swap
}

/// A failed work unit leaves no trace in the snapshot: dropping a
/// `None` slot from the joined results changes nothing, and joining
/// never fails however many slots are `None`.
pub proof fn lemma_none_excluded(results: Seq<Option<Process>>, i: int)
    requires
        0 <= i < results.len(),
        results[i] is None,
    ensures
        somes(results) == somes(results.remove(i)),
    decreases results.len(),
{
    if i == 0 {
        assert(results.remove(0) =~= results.drop_first());
    } else {
        lemma_none_excluded(results.drop_first(), i - 1);
        assert(results.remove(i).drop_first() =~= results.drop_first().remove(i - 1));
        assert(results.remove(i)[0] == results[0]);
    }
}

/// The per-process snapshot: the records one scan collected.
pub struct Processes {
    pub processes: Vec<Process>,
}

impl Processes {
    /// An empty snapshot.
    pub fn new() -> (r: Self)
        ensures
            r.processes@ == Seq::<Process>::empty(),
    {
        Processes { processes: Vec::new() }
    }

    /// Joins the outcomes of a scan's work units into the snapshot:
    /// every completed record is appended in arrival order, every
    /// failed unit is dropped.  Joining never fails.
    pub fn collect(&mut self, results: Vec<Option<Process>>)
        ensures
            final(self).processes@ == old(self).processes@ + somes(results@),
    {
        let ghost orig = self.processes@;
        let ghost all = results@;
        let mut rest = results;
        while rest.len() > 0
            invariant
                self.processes@ + somes(rest@) == orig + somes(all),
            decreases rest@.len(),
        {
            let ghost prev = rest@;
            let r = rest.remove(0);
            proof {
                assert(prev.remove(0) =~= prev.drop_first());
            }
            match r {
                Some(p) => {
                    self.processes.push(p);
                    proof {
                        assert(self.processes@ + somes(rest@) =~= orig + somes(all));
                    }
                },
                None => {},
            }
        }
        proof {
            assert(self.processes@ + somes(rest@) =~= self.processes@);
        }
    }

    /// Orders the snapshot ascending by swap use.  The records are
    /// exactly those collected (a permutation); records with equal
    /// swap use keep no particular order, as arrival order under a
    /// concurrent scan is not deterministic anyway.
    pub fn sort_by_swap(&mut self)
        ensures
            sorted_by_swap(final(self).processes@),
            final(self).processes@.to_multiset() == old(self).processes@.to_multiset(),
    {
        let n = self.processes.len();
        if n <= 1 {
            return;
        }
        let mut i: usize = 1;
        while i < n
            invariant
                1 <= i <= n,
                n == self.processes@.len(),
                sorted_by_swap(self.processes@.take(i as int)),
                self.processes@.to_multiset() == old(self).processes@.to_multiset(),
            decreases n - i,
        {
            let key_swap = self.processes[i].memory.swap;
            let mut j = i;
            while j > 0 && self.processes[j - 1].memory.swap > key_swap
                invariant
                    j <= i < n,
                    n == self.processes@.len(),
                    key_swap == self.processes@[i as int].memory.swap,
                    forall|k: int|
                        j <= k < i ==> #[trigger] self.processes@[k].memory.swap > key_swap,
                decreases j,
            {
                j = j - 1;
            }
            let ghost pre = self.processes@;
            let p = self.processes.remove(i);
            self.processes.insert(j, p);
            proof {
                broadcast use vstd::seq_lib::group_to_multiset_ensures;
                broadcast use vstd::seq_lib::to_multiset_insert;

                let mid = pre.remove(i as int);
                pre.remove_ensures(i as int);
                mid.insert_ensures(j as int, p);
                assert(pre.to_multiset().contains(p));
                assert(pre.to_multiset().remove(p).insert(p) =~= pre.to_multiset());
                let cur = self.processes@;
                let t = pre.take(i as int);
                let ja = j as int;
                assert forall|a: int, b: int|
                    0 <= a <= b <= i as int implies cur[a].memory.swap <= cur[b].memory.swap by {
                    assert(forall|k: int| 0 <= k < i as int ==> t[k] == pre[k]);
                    assert(cur[ja] == p);
                    assert(p == pre[i as int]);
                    if b < ja {
                        assert(cur[a] == pre[a] && cur[b] == pre[b]);
                        assert(t[a].memory.swap <= t[b].memory.swap);
                    } else if b == ja {
                        if a < ja {
                            assert(cur[a] == pre[a]);
                            assert(t[a].memory.swap <= t[ja - 1].memory.swap);
                            assert(pre[ja - 1].memory.swap <= key_swap);
                        }
                    } else {
                        assert(cur[b] == pre[b - 1]);
                        assert(pre[b - 1].memory.swap > key_swap);
                        if a < ja {
                            assert(cur[a] == pre[a]);
                            assert(t[a].memory.swap <= t[ja - 1].memory.swap);
                            assert(pre[ja - 1].memory.swap <= key_swap);
                        } else if a > ja {
                            assert(cur[a] == pre[a - 1]);
                            assert(t[a - 1].memory.swap <= t[b - 1].memory.swap);
                        }
                    }
                }
                assert forall|a: int, b: int|
                    0 <= a <= b < cur.take(i + 1).len() implies #[trigger] cur.take(
                        i + 1,
                    )[a].memory.swap <= #[trigger] cur.take(i + 1)[b].memory.swap by {
                    assert(cur.take(i + 1)[a] == cur[a]);
                    assert(cur.take(i + 1)[b] == cur[b]);
                }
                assert(sorted_by_swap(cur.take(i + 1)));
            }
            i = i + 1;
        }
        proof {
            assert(self.processes@.take(n as int) =~= self.processes@);
        }
    }
}

impl Default for ProcessMemoryStats {
    fn default() -> (r: Self)
        ensures
            r.pid == 0,
            r.username@ == Seq::<char>::empty(),
            r.command@ == Seq::<char>::empty(),
            r.swap == 0,
            r.uss == 0,
            r.pss == 0,
            r.rss == 0,
    {
        ProcessMemoryStats::new()
    }
}

} // verus!
