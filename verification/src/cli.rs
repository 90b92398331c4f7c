//! The command line: how the arguments choose between the window and the
//! console, and the short report that the console mode prints.

use vstd::prelude::*;
use crate::format::{byte_literal, format_bytes};
use crate::reader::Entry;
use crate::text::{chars_of, decimal, push_decimal, push_str};

verus! {

/// How many entries the console mode prints.
pub const CLI_PREVIEW_ROWS: usize = 5;

/// How the program starts; paths are given as indices into the arguments.
#[derive(Clone, Copy, PartialEq, Eq, Structural, Debug)]
pub enum LaunchMode {
    /// The window, opened on the folder of the argument at this index, if any.
    Gui(Option<usize>),
    /// The console report on the database at the argument at this index.
    Cli(usize),
}

fn text_is(a: &String, b: &str) -> (r: bool)
    ensures
        r == (a@ == b@),
{
    let x = chars_of(a.as_str());
    let y = chars_of(b);
    if x.len() != y.len() {
        return false;
    }
    let mut k: usize = 0;
    while k < x.len()
        invariant
            x@ == a@,
            y@ == b@,
            x@.len() == y@.len(),
            k <= x@.len(),
            forall|m: int| 0 <= m < k ==> x@[m] == y@[m],
        decreases x@.len() - k,
    {
        if x[k] != y[k] {
            return false;
        }
        k = k + 1;
    }
    proof {
        assert(x@ =~= y@);
    }
    true
}

/// The launch mode for the arguments after the program name: no argument
/// opens the window; `--gui` opens it on the next argument, if any;
/// `--cli` reads the database at the next argument, which must be there;
/// any other first argument is a database path for the console.
pub fn parse_launch_mode(args: &Vec<String>) -> (mode: Result<LaunchMode, String>)
    ensures
        args@.len() == 0 ==> mode == Ok::<LaunchMode, String>(LaunchMode::Gui(None)),
        args@.len() > 0 && args@[0]@ == "--gui"@ ==> mode == Ok::<LaunchMode, String>(
            LaunchMode::Gui(if args@.len() > 1 { Some(1usize) } else { None }),
        ),
        args@.len() > 0 && args@[0]@ == "--cli"@ && args@.len() > 1 ==> mode == Ok::<
            LaunchMode,
            String,
        >(LaunchMode::Cli(1)),
        args@.len() == 1 && args@[0]@ == "--cli"@ ==> (mode matches Err(message) && message@
            == "Missing path after --cli"@),
        args@.len() > 0 && args@[0]@ != "--gui"@ && args@[0]@ != "--cli"@ ==> mode == Ok::<
            LaunchMode,
            String,
        >(LaunchMode::Cli(0)),
{
    if args.len() == 0 {
        return Ok(LaunchMode::Gui(None));
    }
    let first = &args[0];
    proof {
        reveal_strlit("--gui");
        reveal_strlit("--cli");
        assert("--gui"@ != "--cli"@) by {
            assert("--gui"@[2] != "--cli"@[2]);
        }
    }
    if text_is(first, "--gui") {
        if args.len() > 1 {
            Ok(LaunchMode::Gui(Some(1)))
        } else {
            Ok(LaunchMode::Gui(None))
        }
    } else if text_is(first, "--cli") {
        if args.len() > 1 {
            Ok(LaunchMode::Cli(1))
        } else {
            Err("Missing path after --cli".to_owned())
        }
    } else {
        Ok(LaunchMode::Cli(0))
    }
}

/// The line of the report for the entry at `index`.
pub open spec fn entry_line(index: int, entry: Entry) -> Seq<char> {
    "["@ + decimal((index + 1) as nat) + "] key="@ + byte_literal(entry.key_bytes@) + " value="@
        + byte_literal(entry.value_bytes@)
}

/// The console report: how many entries were read from where, the first
/// entries in their byte view, and how many more were left out.
pub open spec fn cli_report(entries: Seq<Entry>, path: Seq<char>) -> Seq<Seq<char>> {
    let shown = if entries.len() < CLI_PREVIEW_ROWS {
        entries.len() as int
    } else {
        CLI_PREVIEW_ROWS as int
    };
    seq!["Loaded "@ + decimal(entries.len()) + " entries from "@ + path] + Seq::new(
        shown as nat,
        |i: int| entry_line(i, entries[i]),
    ) + if entries.len() > CLI_PREVIEW_ROWS {
        seq!["... "@ + decimal((entries.len() - CLI_PREVIEW_ROWS) as nat) + " more entries omitted"@]
    } else {
        Seq::empty()
    }
}

/// The lines that the console mode prints after reading `entries` from the
/// folder that displays as `path`.
pub fn cli_report_lines(entries: &[Entry], path: &str) -> (lines: Vec<String>)
    ensures
        lines@.map_values(|l: String| l@) == cli_report(entries@, path@),
{
    let n = entries.len();
    let mut lines: Vec<String> = Vec::new();
    let mut head = String::new();
    push_str(&mut head, "Loaded ");
    push_decimal(&mut head, n);
    push_str(&mut head, " entries from ");
    push_str(&mut head, path);
    proof {
        assert(head@ =~= "Loaded "@ + decimal(n as nat) + " entries from "@ + path@);
    }
    lines.push(head);
    let shown = if n < CLI_PREVIEW_ROWS {
        n
    } else {
        CLI_PREVIEW_ROWS
    };
    let mut i: usize = 0;
    while i < shown
        invariant
            n == entries@.len(),
            shown <= n,
            shown <= CLI_PREVIEW_ROWS,
            i <= shown,
            lines@.len() == i + 1,
            lines@[0]@ == "Loaded "@ + decimal(n as nat) + " entries from "@ + path@,
            forall|k: int| 1 <= k <= i ==> #[trigger] lines@[k]@ == entry_line(k - 1, entries@[k - 1]),
        decreases shown - i,
    {
        let entry = &entries[i];
        let mut line = String::new();
        push_str(&mut line, "[");
        push_decimal(&mut line, i + 1);
        push_str(&mut line, "] key=");
        let key = format_bytes(entry.key_bytes.as_slice());
        push_str(&mut line, key.as_str());
        push_str(&mut line, " value=");
        let value = format_bytes(entry.value_bytes.as_slice());
        push_str(&mut line, value.as_str());
        proof {
            assert(line@ =~= entry_line(i as int, entries@[i as int]));
        }
        lines.push(line);
        i = i + 1;
    }
    if n > CLI_PREVIEW_ROWS {
        let mut tail = String::new();
        push_str(&mut tail, "... ");
        push_decimal(&mut tail, n - CLI_PREVIEW_ROWS);
        push_str(&mut tail, " more entries omitted");
        proof {
            assert(tail@ =~= "... "@ + decimal((n - CLI_PREVIEW_ROWS) as nat) + " more entries omitted"@);
        }
        lines.push(tail);
    }
    proof {
        let expected = cli_report(entries@, path@);
        let got = lines@.map_values(|l: String| l@);
        assert(got.len() == expected.len());
        assert forall|k: int| 0 <= k < got.len() implies got[k] == expected[k] by {
            if k == 0 {
            } else if k <= shown {
                assert(got[k] == lines@[k]@);
            } else {
                assert(got[k] == lines@[k]@);
            }
        }
        assert(got =~= expected);
    }
    lines
}

} // verus!
