use vstd::prelude::*;
use crate::entry::{views, ChangelogInfo, EntryView, PullRequest};
use crate::order::{entries_of, is_stable_category_sort};
use crate::text::{trim, trim_text};

verus! {

broadcast use vstd::seq_lib::group_seq_properties;

/// The lines that make up one part of the document.
#[derive(Clone, Copy)]
pub enum Part {
    /// The release-note fragments that are not empty.
    Release,
    /// The summary lines of breaking entries.
    Breaking,
    /// The summary lines of the other entries.
    NonBreaking,
    /// The migration notes of breaking entries.
    Migration,
}

/// Entry `e` contributes a line to `part`.
pub open spec fn part_keeps(part: Part, e: EntryView) -> bool {
    match part {
        Part::Release => e.release_notes.len() > 0,
        Part::Breaking => e.is_breaking,
        Part::NonBreaking => !e.is_breaking,
        Part::Migration => e.is_breaking,
    }
}

/// The line that entry `e` contributes to `part`.
pub open spec fn part_text(part: Part, e: EntryView) -> Seq<char> {
    match part {
        Part::Release => e.release_notes,
        Part::Breaking => e.summary_line,
        Part::NonBreaking => e.summary_line,
        Part::Migration => e.migration_note,
    }
}

/// The lines of `part`, in the order of the entries.
pub open spec fn part_lines(s: Seq<EntryView>, part: Part) -> Seq<Seq<char>> {
    s.filter(|e: EntryView| part_keeps(part, e)).map_values(|e: EntryView| part_text(part, e))
}

/// The lines joined, with `sep` between each two.
pub open spec fn join(lines: Seq<Seq<char>>, sep: Seq<char>) -> Seq<char>
    decreases lines.len(),
{
    if lines.len() == 0 {
        Seq::empty()
    } else if lines.len() == 1 {
        lines[0]
    } else {
        join(lines.drop_last(), sep) + sep + lines.last()
    }
}

/// A section: its heading, its lines joined by `sep`, and a blank line;
/// nothing at all where there are no lines.
pub open spec fn section(heading: Seq<char>, lines: Seq<Seq<char>>, sep: Seq<char>) -> Seq<char> {
    if lines.len() > 0 {
        heading + join(lines, sep) + "\n\n"@
    } else {
        Seq::empty()
    }
}

pub open spec fn summary_heading() -> Seq<char> {
    "# Summary\n\nIn this release, we:\n"@
}

/// The changelog document of the entries `s`: the release summary, the
/// breaking changes, the other changes and the migration notes, each present
/// only where it has lines, trimmed as a whole.
pub open spec fn document(s: Seq<EntryView>) -> Seq<char> {
    trim_text(
        section(summary_heading(), part_lines(s, Part::Release), "\n"@) + section(
            "# Breaking\n\n"@,
            part_lines(s, Part::Breaking),
            "\n"@,
        ) + section(Seq::empty(), part_lines(s, Part::NonBreaking), "\n"@) + section(
            "# Migration Notes\n\n"@,
            part_lines(s, Part::Migration),
            "\n\n"@,
        ),
    )
}

proof fn lemma_part_lines_step(s: Seq<EntryView>, part: Part, i: int)
    requires
        0 <= i < s.len(),
    ensures
        part_lines(s.take(i + 1), part) == (if part_keeps(part, s[i]) {
            part_lines(s.take(i), part).push(part_text(part, s[i]))
        } else {
            part_lines(s.take(i), part)
        }),
{
    let pred = |e: EntryView| part_keeps(part, e);
    reveal(Seq::filter);
    assert(s.take(i + 1).drop_last() =~= s.take(i));
    assert(s.take(i + 1).last() == s[i]);
    if part_keeps(part, s[i]) {
        assert(s.take(i + 1).filter(pred) == s.take(i).filter(pred).push(s[i]));
        assert(part_lines(s.take(i + 1), part) =~= part_lines(s.take(i), part).push(
            part_text(part, s[i]),
        ));
    } else {
        assert(s.take(i + 1).filter(pred) == s.take(i).filter(pred));
    }
}

proof fn lemma_join_push(lines: Seq<Seq<char>>, sep: Seq<char>, x: Seq<char>)
    ensures
        join(lines.push(x), sep) == (if lines.len() == 0 {
            x
        } else {
            join(lines, sep) + sep + x
        }),
{
    assert(lines.push(x).drop_last() =~= lines);
}

/// The lines of `part` in `entries`, joined by `sep`.
fn join_part(entries: &Vec<ChangelogInfo>, part: Part, sep: &str) -> (r: String)
    ensures
        r@ == join(part_lines(views(entries@), part), sep@),
{
    let ghost s = views(entries@);
    let mut out = String::new();
    let mut count: usize = 0;
    let mut i: usize = 0;
    while i < entries.len()
        invariant
            s == views(entries@),
            i <= entries@.len(),
            count == part_lines(s.take(i as int), part).len(),
            count <= i,
            out@ == join(part_lines(s.take(i as int), part), sep@),
        decreases entries@.len() - i,
    {
        let e = &entries[i];
        let keep = match part {
            Part::Release => e.release_notes.unicode_len() > 0,
            Part::Breaking => e.is_breaking,
            Part::NonBreaking => !e.is_breaking,
            Part::Migration => e.is_breaking,
        };
        proof {
            lemma_part_lines_step(s, part, i as int);
            lemma_join_push(part_lines(s.take(i as int), part), sep@, part_text(part, s[i as int]));
        }
        if keep {
            if count > 0 {
                out.append(sep);
            }
            match part {
                Part::Release => out.append(e.release_notes.as_str()),
                Part::Breaking => out.append(e.bullet_point.as_str()),
                Part::NonBreaking => out.append(e.bullet_point.as_str()),
                Part::Migration => out.append(e.migration_note.as_str()),
            }
            count = count + 1;
        }
        i = i + 1;
    }
    proof {
        assert(s.take(i as int) =~= s);
    }
    out
}

/// Appends the section with `heading` and `body` to `content` where `present`.
fn push_section(content: &mut String, present: bool, heading: &str, body: &str)
    ensures
        final(content)@ == old(content)@ + (if present {
            heading@ + body@ + "\n\n"@
        } else {
            Seq::empty()
        }),
{
    if present {
        content.append(heading);
        content.append(body);
        content.append("\n\n");
    } else {
        assert(old(content)@ + Seq::<char>::empty() =~= old(content)@);
    }
}

/// The changelog document of the entries, in the order given.
pub fn generate_changelog(changelogs: Vec<ChangelogInfo>) -> (r: String)
    ensures
        r@ == document(views(changelogs@)),
{
    let ghost s = views(changelogs@);
    let release_notes = join_part(&changelogs, Part::Release, "\n");
    let breaking = join_part(&changelogs, Part::Breaking, "\n");
    let non_breaking = join_part(&changelogs, Part::NonBreaking, "\n");
    let migration_notes = join_part(&changelogs, Part::Migration, "\n\n");
    let mut has_release = false;
    let mut has_breaking = false;
    let mut has_non_breaking = false;
    let mut i: usize = 0;
    while i < changelogs.len()
        invariant
            s == views(changelogs@),
            i <= changelogs@.len(),
            has_release == (part_lines(s.take(i as int), Part::Release).len() > 0),
            has_breaking == (part_lines(s.take(i as int), Part::Breaking).len() > 0),
            has_non_breaking == (part_lines(s.take(i as int), Part::NonBreaking).len() > 0),
        decreases changelogs@.len() - i,
    {
        proof {
            lemma_part_lines_step(s, Part::Release, i as int);
            lemma_part_lines_step(s, Part::Breaking, i as int);
            lemma_part_lines_step(s, Part::NonBreaking, i as int);
        }
        if changelogs[i].release_notes.unicode_len() > 0 {
            has_release = true;
        }
        if changelogs[i].is_breaking {
            has_breaking = true;
        } else {
            has_non_breaking = true;
        }
        i = i + 1;
    }
    proof {
        assert(s.take(i as int) =~= s);
        let migration = |e: EntryView| part_keeps(Part::Migration, e);
        let breaking = |e: EntryView| part_keeps(Part::Breaking, e);
        assert(migration =~= breaking);
        assert(part_lines(s, Part::Migration).len() == part_lines(s, Part::Breaking).len());
    }
    let mut content = String::new();
    push_section(&mut content, has_release, "# Summary\n\nIn this release, we:\n", release_notes.as_str());
    push_section(&mut content, has_breaking, "# Breaking\n\n", breaking.as_str());
    push_section(&mut content, has_non_breaking, "", non_breaking.as_str());
    push_section(&mut content, has_breaking, "# Migration Notes\n\n", migration_notes.as_str());
    proof {
        reveal_strlit("");
    }
    assert(content@ =~= section(summary_heading(), part_lines(s, Part::Release), "\n"@) + section(
        "# Breaking\n\n"@,
        part_lines(s, Part::Breaking),
        "\n"@,
    ) + section(Seq::empty(), part_lines(s, Part::NonBreaking), "\n"@) + section(
        "# Migration Notes\n\n"@,
        part_lines(s, Part::Migration),
        "\n\n"@,
    ));
    trim(content.as_str())
}

proof fn lemma_filter_keeps_all(s: Seq<EntryView>, pred: spec_fn(EntryView) -> bool)
    requires
        forall|i: int| 0 <= i < s.len() ==> pred(#[trigger] s[i]),
    ensures
        s.filter(pred) == s,
    decreases s.len(),
{
    reveal(Seq::filter);
    if s.len() > 0 {
        lemma_filter_keeps_all(s.drop_last(), pred);
        assert(s.drop_last().push(s.last()) =~= s);
    }
}

/// Where no entry is breaking, the document has neither the breaking section
/// nor the migration notes, and its untitled section holds the summary line of
/// every entry, in order.
pub proof fn lemma_no_breaking_entries(s: Seq<EntryView>)
    requires
        forall|i: int| 0 <= i < s.len() ==> !(#[trigger] s[i]).is_breaking,
    ensures
        part_lines(s, Part::Breaking).len() == 0,
        part_lines(s, Part::Migration).len() == 0,
        part_lines(s, Part::NonBreaking) == s.map_values(|e: EntryView| e.summary_line),
        document(s) == trim_text(
            section(summary_heading(), part_lines(s, Part::Release), "\n"@) + section(
                Seq::empty(),
                s.map_values(|e: EntryView| e.summary_line),
                "\n"@,
            ),
        ),
{
    let breaking = |e: EntryView| part_keeps(Part::Breaking, e);
    let migration = |e: EntryView| part_keeps(Part::Migration, e);
    let other = |e: EntryView| part_keeps(Part::NonBreaking, e);
    assert forall|e: EntryView| s.contains(e) implies !breaking(e) by {}
    assert forall|e: EntryView| s.contains(e) implies !migration(e) by {}
    s.lemma_all_neg_filter_empty(breaking);
    s.lemma_all_neg_filter_empty(migration);
    lemma_filter_keeps_all(s, other);
    assert(part_lines(s, Part::NonBreaking) =~= s.map_values(|e: EntryView| e.summary_line));
    let head = section(summary_heading(), part_lines(s, Part::Release), "\n"@);
    let body = section(Seq::empty(), s.map_values(|e: EntryView| e.summary_line), "\n"@);
    assert(head + Seq::<char>::empty() + body + Seq::<char>::empty() =~= head + body);
}

/// A commit range with no commits yields the empty document.
pub proof fn lemma_empty_range(r: Seq<EntryView>)
    requires
        is_stable_category_sort(r, entries_of(Seq::<Vec<PullRequest>>::empty())),
    ensures
        document(r) == Seq::<char>::empty(),
{
    assert(r.len() == 0);
    reveal(Seq::filter);
    let e = Seq::<char>::empty();
    assert(e + e + e + e =~= e);
}

} // verus!
