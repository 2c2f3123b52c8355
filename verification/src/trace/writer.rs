//! Where trace files go and what they hold.
use vstd::prelude::*;
use crate::number::{digits_value, lemma_decimal_value};
use crate::paths::{join_path, path_join};
use crate::text::{concat, decimal, u64_decimal, zero_pad, zero_padded};
use crate::trace::model::TraceSummary;

verus! {

/// A trace file to write: where, and the numbered summary it holds.
pub struct TraceRecord {
    pub path: String,
    pub summary: TraceSummary,
}

/// Writes numbered trace files into one directory per session.
pub struct TraceWriter {
    session_dir: String,
    sequence: u64,
}

/// The name of a session's directory: when it started, in milliseconds since
/// the epoch, and the process id.
pub open spec fn session_name(started_millis: u64, pid: u32) -> Seq<char> {
    decimal(started_millis as nat) + "-pid"@ + decimal(pid as nat)
}

/// The name of a trace file: `request-`, the number padded to six digits, `.json`.
pub open spec fn trace_file_name(sequence: u64) -> Seq<char> {
    "request-"@ + zero_pad(decimal(sequence as nat), 6) + ".json"@
}

impl TraceWriter {
    /// The session's directory.
    pub closed spec fn dir(&self) -> Seq<char> {
        self.session_dir@
    }

    /// The number the next trace gets.
    pub closed spec fn next_sequence(&self) -> u64 {
        self.sequence
    }

    /// A writer for a session under `base_dir`, numbering from 1.
    pub fn new(base_dir: &str, started_millis: u64, pid: u32) -> (r: TraceWriter)
        ensures
            r.dir() == path_join(base_dir@, session_name(started_millis, pid)),
            r.next_sequence() == 1,
    {
        let name = concat(concat(u64_decimal(started_millis).as_str(), "-pid").as_str(), u64_decimal(pid as u64).as_str());
        TraceWriter { session_dir: join_path(base_dir, name.as_str()), sequence: 1 }
    }

    /// The number the next trace gets.
    pub fn next_sequence_number(&self) -> (r: u64)
        ensures
            r == self.next_sequence(),
    {
        self.sequence
    }

    /// Numbers a trace and gives the file to write for it: in the session's
    /// directory, named by the number, holding the summary with that number.
    pub fn write(&mut self, summary: TraceSummary) -> (r: TraceRecord)
        requires
            old(self).next_sequence() < u64::MAX,
        ensures
            final(self).dir() == old(self).dir(),
            final(self).next_sequence() == old(self).next_sequence() + 1,
            r.path@ == path_join(old(self).dir(), trace_file_name(old(self).next_sequence())),
            r.summary.sequence == old(self).next_sequence(),
            r.summary.method == summary.method,
            r.summary.path == summary.path,
            r.summary.request_body == summary.request_body,
            r.summary.response_status == summary.response_status,
    {
        let mut summary = summary;
        summary.sequence = self.sequence;
        self.sequence = self.sequence + 1;
        let number = zero_padded(u64_decimal(summary.sequence).as_str(), 6);
        let name = concat(concat("request-", number.as_str()).as_str(), ".json");
        let path = join_path(self.session_dir.as_str(), name.as_str());
        TraceRecord { path, summary }
    }

    /// The session's directory.
    pub fn session_dir(&self) -> (r: &str)
        ensures
            r@ == self.dir(),
    {
        self.session_dir.as_str()
    }
}

/// The zeros in front of a number's digits add nothing to its value.
proof fn lemma_leading_zeros_value(z: nat, s: Seq<char>)
    ensures
        digits_value(Seq::new(z, |i: int| '0') + s) == digits_value(s),
    decreases s.len(), z,
{
    let zs = Seq::new(z, |i: int| '0');
    if s.len() == 0 {
        assert(zs + s =~= zs);
        if z > 0 {
            lemma_leading_zeros_value((z - 1) as nat, s);
            assert(zs.drop_last() =~= Seq::new((z - 1) as nat, |i: int| '0') + s);
            assert(zs.last() == '0');
        }
    } else {
        lemma_leading_zeros_value(z, s.drop_last());
        assert((zs + s).drop_last() =~= zs + s.drop_last());
        assert((zs + s).last() == s.last());
    }
}

/// The number in a trace file's name reads back as the trace's number.
proof fn lemma_padded_number_value(n: u64)
    ensures
        digits_value(zero_pad(decimal(n as nat), 6)) == n,
{
    let d = decimal(n as nat);
    lemma_decimal_value(n as nat);
    if d.len() < 6 {
        lemma_leading_zeros_value((6 - d.len()) as nat, d);
    }
}

/// Traces with different numbers go to different files of the session's
/// directory, so no trace overwrites another.
pub proof fn law_trace_files_distinct(dir: Seq<char>, a: u64, b: u64)
    requires
        a != b,
    ensures
        path_join(dir, trace_file_name(a)) != path_join(dir, trace_file_name(b)),
{
    reveal_strlit("request-");
    reveal_strlit(".json");
    let x = trace_file_name(a);
    let y = trace_file_name(b);
    let pa = zero_pad(decimal(a as nat), 6);
    let pb = zero_pad(decimal(b as nat), 6);
    if path_join(dir, x) == path_join(dir, y) {
        assert(x[0] == 'r' && y[0] == 'r');
        let k: int = if dir.len() == 0 || dir.last() == '/' { dir.len() as int } else { dir.len() + 1int };
        assert(x =~= path_join(dir, x).skip(k));
        assert(y =~= path_join(dir, y).skip(k));
        assert(x == y);
        assert(pa.len() == pb.len());
        assert(pa =~= x.subrange(8, 8 + pa.len() as int));
        assert(pb =~= y.subrange(8, 8 + pb.len() as int));
        lemma_padded_number_value(a);
        lemma_padded_number_value(b);
    }
}

} // verus!
