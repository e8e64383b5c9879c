//! What the user is told of an import cycle.

use vstd::prelude::*;

use crate::ansi;
use crate::ansi::{HighlightFile, Hyperlink, ScopeColor};
use crate::paths;
use crate::text;
use crate::text::Render;

verus! {

broadcast use text::lemma_texts_push;

/// A link to the file at `path`, shown as the path.
pub open spec fn plain_link(host: Seq<char>, path: Seq<char>) -> Seq<char> {
    ansi::linked_text(ansi::file_address(host, path), path)
}

/// A link to the file at `path`, shown as the path with the name of the file in bright red.
pub open spec fn marked_link(host: Seq<char>, path: Seq<char>) -> Seq<char> {
    ansi::linked_text(
        ansi::file_address(host, path),
        ansi::highlighted(
            path,
            paths::file_name_of(path),
            paths::parent_of(path),
            text::decimal(91),
        ),
    )
}

/// A line of the report: what it says of the file, and the file.
pub open spec fn report_line(says: Seq<char>, link: Seq<char>) -> Seq<char> {
    ansi::coloured("37"@, says) + " "@ + link
}

/// The report of a cycle: the file that was to be imported, and the files through which it imports
/// the importing one. The file at either end is marked.
pub open spec fn cycle_lines(
    host: Seq<char>,
    imported: Seq<char>,
    chain: Seq<Seq<char>>,
) -> Seq<Seq<char>> {
    seq![
        ansi::coloured("93;1"@, "cycle detected in import chain:"@),
        report_line("Attempted to import"@, marked_link(host, imported)),
    ] + Seq::new(
        chain.len(),
        |i: int|
            report_line(
                "...which is imported by"@,
                if i == chain.len() - 1 {
                    marked_link(host, chain[i])
                } else {
                    plain_link(host, chain[i])
                },
            ),
    )
}

/// Writes a link that marks the name of the file.
fn marked_link_text(host: &str, path: &str) -> (link: String)
    ensures
        link@ == marked_link(host@, path@),
{
    Hyperlink::from_path_named_on(host, path, HighlightFile(path, 91u64)).render()
}

/// Writes a line of the report.
fn report_line_text(says: &str, link: &str) -> (line: String)
    ensures
        line@ == report_line(says@, link@),
{
    let mut line = ScopeColor::new("37", says).render();
    line.append(" ");
    line.append(link);
    line
}

/// Writes the report of a cycle.
pub fn cycle_report(host: &str, imported: &str, chain: &Vec<String>) -> (lines: Vec<String>)
    ensures
        text::texts(lines@) == cycle_lines(host@, imported@, text::texts(chain@)),
{
    let mut lines: Vec<String> = Vec::new();
    lines.push(ScopeColor::new("93;1", "cycle detected in import chain:").render());
    let link = marked_link_text(host, imported);
    lines.push(report_line_text("Attempted to import", link.as_str()));
    let ghost every = cycle_lines(host@, imported@, text::texts(chain@));
    let mut i: usize = 0;
    while i < chain.len()
        invariant
            i <= chain.len(),
            every == cycle_lines(host@, imported@, text::texts(chain@)),
            text::texts(lines@) =~= every.take(i + 2),
        decreases chain.len() - i,
    {
        let path = chain[i].as_str();
        let link = if i == chain.len() - 1 {
            marked_link_text(host, path)
        } else {
            Hyperlink::from_path_on(host, path).render()
        };
        lines.push(report_line_text("...which is imported by", link.as_str()));
        assert(text::texts(chain@)[i as int] == path@);
        assert(every[i + 2] == lines@.last()@);
        i += 1;
    }
    assert(every.take(every.len() as int) =~= every);
    lines
}

} // verus!
