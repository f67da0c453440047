//! The formatter: turns a finished diff outcome into user-facing output
//! lines, in one of two modes. `hashmap` shows each unmatched row as
//! display text; `insert` shows each as an INSERT statement against the
//! opposite side's table. Any other mode is an invalid configuration,
//! rejected before any row is rendered.

use crate::engine::DiffOutcome;
use crate::pending::PendingMap;
use crate::row::{row_as_insert, row_as_string, row_display, row_insert, Row};
use crate::text::{dec_nat, u64_to_string};
use vstd::prelude::*;
use vstd::string::StringExecFns;

verus! {

/// An invalid-configuration error, naming the offending mode.
#[derive(Debug)]
pub struct ConfigError {
    /// The description of the rejected configuration.
    pub message: String,
}

impl ConfigError {
    /// The error's text: `invalid output format ` and the mode as given.
    pub fn message(&self) -> (r: &String)
        ensures
            r@ == self.message@,
    {
        &self.message
    }
}

/// Whether every row held in the outcome's pending maps is well formed.
pub open spec fn outcome_wf(out: DiffOutcome) -> bool {
    &&& forall|k: int|
        0 <= k < out.source_pending.entries().len() ==> (#[trigger] out.source_pending.entries()[k]).1.wf()
    &&& forall|k: int|
        0 <= k < out.dest_pending.entries().len() ==> (#[trigger] out.dest_pending.entries()[k]).1.wf()
}

/// The header line: the processed-row count.
pub open spec fn processed_line(out: DiffOutcome) -> Seq<char> {
    "Processed: "@ + dec_nat(out.processed as nat)
}

/// The lines of the `hashmap` mode: the header, then each source-pending
/// row as `< [ ... ]` and each destination-pending row as `> [ ... ]`,
/// in insertion order.
pub open spec fn hashmap_lines(out: DiffOutcome) -> Seq<Seq<char>> {
    seq![processed_line(out)] + out.source_pending.entries().map_values(
        |e: (u64, Row)| "< "@ + row_display(e.1),
    ) + out.dest_pending.entries().map_values(|e: (u64, Row)| "> "@ + row_display(e.1))
}

/// The lines of the `insert` mode: the header, then each source-pending
/// row as an INSERT against the destination table and each
/// destination-pending row as an INSERT against the source table.
pub open spec fn insert_lines(
    out: DiffOutcome,
    source_table: Seq<char>,
    dest_table: Seq<char>,
) -> Seq<Seq<char>> {
    seq![processed_line(out)] + out.source_pending.entries().map_values(
        |e: (u64, Row)| "< "@ + row_insert(dest_table, e.1),
    ) + out.dest_pending.entries().map_values(
        |e: (u64, Row)| "> "@ + row_insert(source_table, e.1),
    )
}

/// Renders the pending-map lines of one side: the given prefix, then the
/// display text of each held row, in insertion order.
fn side_display_lines(out: &mut Vec<String>, side: &PendingMap, prefix: &str)
    requires
        forall|k: int| 0 <= k < side.entries().len() ==> (#[trigger] side.entries()[k]).1.wf(),
    ensures
        final(out)@.len() == old(out)@.len() + side.entries().len(),
        forall|k: int| 0 <= k < old(out)@.len() ==> final(out)@[k] == old(out)@[k],
        forall|k: int|
            old(out)@.len() <= k < final(out)@.len() ==> (#[trigger] final(out)@[k])@ == prefix@
                + row_display(side.entries()[k - old(out)@.len()].1),
{
    let n = side.len();
    let mut i: usize = 0;
    while i < n
        invariant
            n == side.entries().len(),
            i <= n,
            forall|k: int| 0 <= k < side.entries().len() ==> (#[trigger] side.entries()[k]).1.wf(),
            out@.len() == old(out)@.len() + i,
            forall|k: int| 0 <= k < old(out)@.len() ==> out@[k] == old(out)@[k],
            forall|k: int|
                old(out)@.len() <= k < out@.len() ==> (#[trigger] out@[k])@ == prefix@
                    + row_display(side.entries()[k - old(out)@.len()].1),
        decreases n - i,
    {
        let entry = side.entry_at(i);
        let mut line = String::from_str(prefix);
        let d = row_as_string(&entry.1);
        line.append(d.as_str());
        out.push(line);
        i += 1;
    }
}

/// Renders the pending-map lines of one side in insert mode: the given
/// prefix, then an INSERT statement against `table` for each held row.
fn side_insert_lines(
    out: &mut Vec<String>,
    side: &PendingMap,
    prefix: &str,
    table: &str,
)
    requires
        forall|k: int| 0 <= k < side.entries().len() ==> (#[trigger] side.entries()[k]).1.wf(),
    ensures
        final(out)@.len() == old(out)@.len() + side.entries().len(),
        forall|k: int| 0 <= k < old(out)@.len() ==> final(out)@[k] == old(out)@[k],
        forall|k: int|
            old(out)@.len() <= k < final(out)@.len() ==> (#[trigger] final(out)@[k])@ == prefix@
                + row_insert(table@, side.entries()[k - old(out)@.len()].1),
{
    let n = side.len();
    let mut i: usize = 0;
    while i < n
        invariant
            n == side.entries().len(),
            i <= n,
            forall|k: int| 0 <= k < side.entries().len() ==> (#[trigger] side.entries()[k]).1.wf(),
            out@.len() == old(out)@.len() + i,
            forall|k: int| 0 <= k < old(out)@.len() ==> out@[k] == old(out)@[k],
            forall|k: int|
                old(out)@.len() <= k < out@.len() ==> (#[trigger] out@[k])@ == prefix@
                    + row_insert(table@, side.entries()[k - old(out)@.len()].1),
        decreases n - i,
    {
        let entry = side.entry_at(i);
        let mut line = String::from_str(prefix);
        let d = row_as_insert(table, &entry.1);
        line.append(d.as_str());
        out.push(line);
        i += 1;
    }
}

/// Formats a finished outcome in the named mode, or fails on an unknown
/// mode before rendering any row. `hashmap` renders display lines;
/// `insert` renders, for each row missing on one side, an INSERT against
/// the other side's table.
pub fn format(
    outcome: &DiffOutcome,
    mode: &str,
    source_table: &str,
    dest_table: &str,
) -> (r: Result<Vec<String>, ConfigError>)
    requires
        outcome_wf(*outcome),
    ensures
        mode@ == "hashmap"@ ==> (r matches Ok(lines) && lines.deep_view()
            == hashmap_lines(*outcome)),
        mode@ == "insert"@ ==> (r matches Ok(lines) && lines.deep_view() == insert_lines(
            *outcome,
            source_table@,
            dest_table@,
        )),
        mode@ != "hashmap"@ && mode@ != "insert"@ ==> (r matches Err(e) && e.message@
            == "invalid output format "@ + mode@),
{
    proof {
        reveal_strlit("hashmap");
        reveal_strlit("insert");
        assert("hashmap"@.len() == 7);
        assert("insert"@.len() == 6);
    }
    let m = mode.to_owned();
    let mut lines: Vec<String> = Vec::new();
    let mut header = String::from_str("Processed: ");
    let count = u64_to_string(outcome.processed as u64);
    header.append(count.as_str());
    if m == String::from_str("hashmap") {
        lines.push(header);
        side_display_lines(&mut lines, &outcome.source_pending, "< ");
        side_display_lines(&mut lines, &outcome.dest_pending, "> ");
        proof {
            let hv = hashmap_lines(*outcome);
            let sp = outcome.source_pending.entries();
            let dp = outcome.dest_pending.entries();
            assert(lines@.len() == 1 + sp.len() + dp.len());
            assert forall|k: int| 0 <= k < lines@.len() implies lines.deep_view()[k] == hv[k] by {
                assert(lines.deep_view()[k] == lines@[k]@);
                if k == 0 {
                } else if k < 1 + sp.len() {
                    assert(lines@[k]@ == "< "@ + row_display(sp[k - 1].1));
                    assert(hv[k] == sp.map_values(|e: (u64, Row)| "< "@ + row_display(e.1))[k
                        - 1]);
                } else {
                    assert(lines@[k]@ == "> "@ + row_display(dp[k - 1 - sp.len()].1));
                    assert(hv[k] == dp.map_values(|e: (u64, Row)| "> "@ + row_display(e.1))[k - 1
                        - sp.len()]);
                }
            }
            assert(lines.deep_view() =~= hv);
        }
        Ok(lines)
    } else if m == String::from_str("insert") {
        lines.push(header);
        side_insert_lines(&mut lines, &outcome.source_pending, "< ", dest_table);
        side_insert_lines(&mut lines, &outcome.dest_pending, "> ", source_table);
        proof {
            let hv = insert_lines(*outcome, source_table@, dest_table@);
            let sp = outcome.source_pending.entries();
            let dp = outcome.dest_pending.entries();
            assert(lines@.len() == 1 + sp.len() + dp.len());
            assert forall|k: int| 0 <= k < lines@.len() implies lines.deep_view()[k] == hv[k] by {
                assert(lines.deep_view()[k] == lines@[k]@);
                if k == 0 {
                } else if k < 1 + sp.len() {
                    assert(lines@[k]@ == "< "@ + row_insert(dest_table@, sp[k - 1].1));
                    assert(hv[k] == sp.map_values(
                        |e: (u64, Row)| "< "@ + row_insert(dest_table@, e.1),
                    )[k - 1]);
                } else {
                    assert(lines@[k]@ == "> "@ + row_insert(source_table@, dp[k - 1
                        - sp.len()].1));
                    assert(hv[k] == dp.map_values(
                        |e: (u64, Row)| "> "@ + row_insert(source_table@, e.1),
                    )[k - 1 - sp.len()]);
                }
            }
            assert(lines.deep_view() =~= hv);
        }
        Ok(lines)
    } else {
        let mut message = String::from_str("invalid output format ");
        message.append(mode);
        Err(ConfigError { message })
    }
}

} // verus!
