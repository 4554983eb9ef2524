use vstd::prelude::*;

verus! {

use crate::colors::{color_string, color_string_spec};
use crate::text::{dec_seq, u32_to_string};

/// The task-level cells of one table row.
#[derive(Debug)]
pub struct MainHeaders {
    pub id: u32,
    pub command: String,
    pub dir: String,
}

/// The process-level cells of one table row, already written out.
#[derive(Debug)]
pub struct ProcessHeaders {
    pub pid: String,
    pub memory: String,
    pub cpu: String,
    pub runtime: String,
    pub status: String,
}

/// The placeholder cell for a task with no live process.
pub open spec fn na_cell() -> Seq<char> {
    "N/A"@
}

/// The eight cells of one table row: id, command and location, then the
/// process columns — a running task's own cells, or placeholders and a
/// red `Stopped` mark for a task with no live process.
pub open spec fn row_spec(headers: MainHeaders, process: Option<ProcessHeaders>) -> Seq<Seq<char>> {
    seq![dec_seq(headers.id as nat), headers.command@, headers.dir@] + (match process {
        Some(p) => seq![p.pid@, p.status@, p.memory@, p.cpu@, p.runtime@],
        None => seq![
            na_cell(),
            color_string_spec([204, 0, 0], "Stopped"@),
            na_cell(),
            na_cell(),
            na_cell(),
        ],
    })
}

/// Lays out one task's row for the listing table.
pub fn build_row(headers: &MainHeaders, process: Option<&ProcessHeaders>) -> (r: Vec<String>)
    ensures
        r.deep_view() == row_spec(*headers, match process {
            Some(p) => Some(*p),
            None => None,
        }),
        r@.len() == 8,
{
    let mut row: Vec<String> = Vec::new();
    row.push(u32_to_string(headers.id));
    row.push(headers.command.clone());
    row.push(headers.dir.clone());
    match process {
        Some(p) => {
            row.push(p.pid.clone());
            row.push(p.status.clone());
            row.push(p.memory.clone());
            row.push(p.cpu.clone());
            row.push(p.runtime.clone());
        },
        None => {
            row.push(String::from_str("N/A"));
            row.push(color_string([204, 0, 0], "Stopped"));
            row.push(String::from_str("N/A"));
            row.push(String::from_str("N/A"));
            row.push(String::from_str("N/A"));
        },
    }
    proof {
        assert(row.deep_view() =~= row_spec(*headers, match process {
            Some(p) => Some(*p),
            None => None,
        }));
    }
    row
}

} // verus!
