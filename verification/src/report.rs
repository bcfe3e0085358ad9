//! The text table of stored access sessions that the command line prints.
use vstd::prelude::*;
use crate::log::AccessSession;
use crate::numbers::{decimal, format_int};
use crate::policy::action_name;
use crate::text::push_char;

verus! {

/// `s` padded with spaces on the right to `w` characters (`{:<w}`).
pub open spec fn pad_right(s: Seq<char>, w: int) -> Seq<char> {
    if s.len() >= w {
        s
    } else {
        s + Seq::new((w - s.len()) as nat, |i: int| ' ')
    }
}

/// The cells joined by ` | `, each padded to its column's width.
pub open spec fn table_line(cells: Seq<Seq<char>>) -> Seq<char> {
    pad_right(cells[0], 16) + " | "@ + pad_right(cells[1], 28) + " | "@ + pad_right(cells[2], 14)
        + " | "@ + pad_right(cells[3], 7) + " | "@ + pad_right(cells[4], 7)
}

/// The cells of one session: device, target, tag (`-` without one), action
/// and request count.
pub open spec fn session_cells(s: AccessSession) -> Seq<Seq<char>> {
    seq![
        s.device_ip@,
        s.target_domain@,
        match s.tag {
            Some(t) => t@,
            None => "-"@,
        },
        action_name(s.action),
        decimal(s.request_count as int),
    ]
}

/// The lines printed for `logs`: a notice when there are none, else a blank
/// line and the header, a rule of dashes and one line per session.
pub open spec fn report_lines(logs: Seq<AccessSession>) -> Seq<Seq<char>> {
    if logs.len() == 0 {
        seq!["No access logs found."@]
    } else {
        seq![
            "\n"@ + table_line(seq!["Device IP"@, "Target"@, "Tag"@, "Action"@, "Reqs"@]),
            Seq::new(84, |i: int| '-'),
        ] + logs.map_values(|s: AccessSession| table_line(session_cells(s)))
    }
}

fn append_padded(line: &mut String, s: &str, w: usize)
    ensures
        final(line)@ == old(line)@ + pad_right(s@, w as int),
{
    line.append(s);
    let n = s.unicode_len();
    let ghost base = old(line)@ + s@;
    if n < w {
        let mut k: usize = n;
        while k < w
            invariant
                n <= k <= w,
                n == s@.len(),
                line@ == base + Seq::new((k - n) as nat, |i: int| ' '),
            decreases w - k,
        {
            push_char(line, ' ');
            k = k + 1;
            assert(line@ =~= base + Seq::new((k - n) as nat, |i: int| ' '));
        }
        assert(line@ =~= old(line)@ + pad_right(s@, w as int));
    } else {
        assert(line@ =~= old(line)@ + pad_right(s@, w as int));
    }
}

fn make_line(c0: &str, c1: &str, c2: &str, c3: &str, c4: &str) -> (line: String)
    ensures
        line@ == table_line(seq![c0@, c1@, c2@, c3@, c4@]),
{
    let mut line = String::new();
    append_padded(&mut line, c0, 16);
    line.append(" | ");
    append_padded(&mut line, c1, 28);
    line.append(" | ");
    append_padded(&mut line, c2, 14);
    line.append(" | ");
    append_padded(&mut line, c3, 7);
    line.append(" | ");
    append_padded(&mut line, c4, 7);
    assert(line@ =~= table_line(seq![c0@, c1@, c2@, c3@, c4@]));
    line
}

/// The lines to print for `logs` (see `report_lines`).
pub fn access_log_lines(logs: &Vec<AccessSession>) -> (lines: Vec<String>)
    ensures
        crate::text::views(lines@) == report_lines(logs@),
{
    let mut lines: Vec<String> = Vec::new();
    if logs.len() == 0 {
        lines.push(String::from_str("No access logs found."));
        assert(crate::text::views(lines@) =~= report_lines(logs@));
        return lines;
    }
    let mut header = String::from_str("\n");
    let h = make_line("Device IP", "Target", "Tag", "Action", "Reqs");
    header.append(h.as_str());
    lines.push(header);
    let mut rule = String::new();
    let mut k: usize = 0;
    while k < 84
        invariant
            k <= 84,
            rule@ == Seq::new(k as nat, |i: int| '-'),
        decreases 84 - k,
    {
        push_char(&mut rule, '-');
        k = k + 1;
        assert(rule@ =~= Seq::new(k as nat, |i: int| '-'));
    }
    lines.push(rule);
    let ghost head = crate::text::views(lines@);
    let mut i: usize = 0;
    while i < logs.len()
        invariant
            i <= logs@.len(),
            head.len() == 2,
            crate::text::views(lines@) == head + logs@.take(i as int).map_values(
                |s: AccessSession| table_line(session_cells(s)),
            ),
        decreases logs@.len() - i,
    {
        let s = &logs[i];
        let tag: &str = match &s.tag {
            Some(t) => t.as_str(),
            None => "-",
        };
        let count = format_int(s.request_count as i64);
        let line = make_line(
            s.device_ip.as_str(),
            s.target_domain.as_str(),
            tag,
            s.action.as_str(),
            count.as_str(),
        );
        let ghost before = crate::text::views(lines@);
        lines.push(line);
        i = i + 1;
        assert(session_cells(*s)[2] == tag@);
        assert(seq![s.device_ip@, s.target_domain@, tag@, action_name(s.action), count@]
            =~= session_cells(*s));
        assert(crate::text::views(lines@) =~= before.push(line@));
        assert(logs@.take(i as int) =~= logs@.take(i - 1).push(*s));
        assert(crate::text::views(lines@) =~= head + logs@.take(i as int).map_values(
            |s: AccessSession| table_line(session_cells(s)),
        ));
    }
    assert(logs@.take(i as int) =~= logs@);
    assert(crate::text::views(lines@) =~= report_lines(logs@));
    lines
}

} // verus!
