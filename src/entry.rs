use vstd::prelude::*;
use crate::scan::{find_char, first_char, section_after, section_text, lemma_no_occurrence, occurs_at};
use crate::text::{capitalize, capitalized, to_chars, trim, trim_text};

verus! {

broadcast use vstd::string::group_string_axioms;

/// What the hosting service reports of one pull request.
#[derive(Debug)]
pub struct PullRequest {
    pub number: u64,
    pub title: Option<String>,
    pub body: Option<String>,
    pub html_url: Option<String>,
    pub author_login: Option<String>,
}

/// One line of the changelog, derived from one pull request.
#[derive(Debug)]
pub struct ChangelogInfo {
    pub is_breaking: bool,
    pub pr_type: String,
    pub bullet_point: String,
    pub migration_note: String,
    pub release_notes: String,
}

/// The mathematical value of a [`ChangelogInfo`].
pub ghost struct EntryView {
    pub is_breaking: bool,
    pub category: Seq<char>,
    pub summary_line: Seq<char>,
    pub migration_note: Seq<char>,
    pub release_notes: Seq<char>,
}

impl View for ChangelogInfo {
    type V = EntryView;

    open spec fn view(&self) -> EntryView {
        EntryView {
            is_breaking: self.is_breaking,
            category: self.pr_type@,
            summary_line: self.bullet_point@,
            migration_note: self.migration_note@,
            release_notes: self.release_notes@,
        }
    }
}

/// The views of a sequence of entries.
pub open spec fn views(s: Seq<ChangelogInfo>) -> Seq<EntryView> {
    s.map_values(|e: ChangelogInfo| e@)
}

/// Why no changelog could be assembled.
#[derive(Debug, PartialEq, Eq, Structural)]
pub enum ChangelogError {
    /// A commit of the range has no pull request associated with it.
    PullRequestNotFound,
}

/// The text of an optional string; empty where it is absent.
pub open spec fn text_of(o: Option<String>) -> Seq<char> {
    match o {
        Some(s) => s@,
        None => Seq::empty(),
    }
}

pub open spec fn digit_char(d: nat) -> char {
    "0123456789"@[d as int]
}

/// `n` written in decimal, without leading zeros.
pub open spec fn decimal(n: nat) -> Seq<char>
    decreases n,
{
    if n < 10 {
        seq![digit_char(n)]
    } else {
        decimal(n / 10).push(digit_char(n % 10))
    }
}

/// The category of a title: the text before its first `:`, or `misc` where
/// there is no title, no `:`, or nothing before it.
pub open spec fn category_of(title: Option<Seq<char>>) -> Seq<char> {
    match title {
        Some(t) => if first_char(t, ':', 0) > 0 {
            t.take(first_char(t, ':', 0))
        } else {
            "misc"@
        },
        None => "misc"@,
    }
}

/// A title marks a breaking change by holding a `!` anywhere.
pub open spec fn breaking_of(title: Option<Seq<char>>) -> bool {
    match title {
        Some(t) => t.contains('!'),
        None => false,
    }
}

/// The description of a title: the text after its first `:`, trimmed and with
/// its first character upper-cased; empty where there is no `:`.
pub open spec fn description_of(title: Option<Seq<char>>) -> Seq<char> {
    match title {
        Some(t) => if first_char(t, ':', 0) >= 0 {
            capitalized(trim_text(t.skip(first_char(t, ':', 0) + 1)))
        } else {
            Seq::empty()
        },
        None => Seq::empty(),
    }
}

pub open spec fn title_of(pr: PullRequest) -> Option<Seq<char>> {
    match pr.title {
        Some(t) => Some(t@),
        None => None,
    }
}

pub open spec fn summary_of(pr: PullRequest) -> Seq<char> {
    "- "@ + text_of(pr.html_url) + " - "@ + description_of(title_of(pr)) + ", by "@ + text_of(
        pr.author_login,
    )
}

pub open spec fn migration_heading_of(pr: PullRequest) -> Seq<char> {
    "### ["@ + decimal(pr.number as nat) + " - "@ + description_of(title_of(pr)) + "]("@ + text_of(
        pr.html_url,
    ) + ")"@
}

pub open spec fn migration_of(pr: PullRequest) -> Seq<char> {
    migration_heading_of(pr) + "\n\n"@ + section_after(text_of(pr.body), "# Breaking Changes"@)
}

pub open spec fn release_of(pr: PullRequest) -> Seq<char> {
    section_after(text_of(pr.body), "In this release, we:"@)
}

/// The entry that `pr` yields.
pub open spec fn entry_of(pr: PullRequest) -> EntryView {
    EntryView {
        is_breaking: breaking_of(title_of(pr)),
        category: category_of(title_of(pr)),
        summary_line: summary_of(pr),
        migration_note: migration_of(pr),
        release_notes: release_of(pr),
    }
}

fn digit_text(d: u64) -> (r: String)
    requires
        d < 10,
    ensures
        r@ == seq![digit_char(d as nat)],
{
    let digits = "0123456789";
    proof {
        reveal_strlit("0123456789");
    }
    String::from_str(digits.substring_char(d as usize, d as usize + 1))
}

/// `n` in decimal.
pub fn decimal_text(n: u64) -> (r: String)
    ensures
        r@ == decimal(n as nat),
    decreases n,
{
    if n < 10 {
        digit_text(n)
    } else {
        let mut s = decimal_text(n / 10);
        let d = digit_text(n % 10);
        s.append(d.as_str());
        s
    }
}

fn text_or_empty(o: &Option<String>) -> (r: &str)
    ensures
        r@ == text_of(*o),
{
    match o {
        Some(s) => s.as_str(),
        None => {
            proof {
                reveal_strlit("");
            }
            ""
        },
    }
}

/// The category and description of a pull request's title.
fn split_title(title: &Option<String>) -> (r: (String, String, bool))
    ensures
        r.0@ == category_of(
            match title {
                Some(t) => Some(t@),
                None => None,
            },
        ),
        r.1@ == description_of(
            match title {
                Some(t) => Some(t@),
                None => None,
            },
        ),
        r.2 == breaking_of(
            match title {
                Some(t) => Some(t@),
                None => None,
            },
        ),
{
    match title {
        None => (String::from_str("misc"), String::new(), false),
        Some(t) => {
            let cs = to_chars(t.as_str());
            let breaking = match find_char(&cs, '!', 0) {
                Some(_) => true,
                None => false,
            };
            match find_char(&cs, ':', 0) {
                None => (String::from_str("misc"), String::new(), breaking),
                Some(i) => {
                    let category = if i > 0 {
                        let c = String::from_str(t.as_str().substring_char(0, i));
                        assert(c@ =~= t@.take(i as int));
                        c
                    } else {
                        String::from_str("misc")
                    };
                    let rest = t.as_str().substring_char(i + 1, cs.len());
                    assert(rest@ =~= t@.skip(i + 1));
                    let trimmed = trim(rest);
                    let description = capitalize(trimmed.as_str());
                    (category, description, breaking)
                },
            }
        },
    }
}

/// The changelog entry of one pull request. Missing fields read as empty
/// text; a title without `:` gives category `misc` and an empty description.
pub fn entry_from_pull_request(pr: &PullRequest) -> (r: ChangelogInfo)
    ensures
        r@ == entry_of(*pr),
{
    let (pr_type, description, is_breaking) = split_title(&pr.title);
    let url = text_or_empty(&pr.html_url);
    let author = text_or_empty(&pr.author_login);
    let body = text_or_empty(&pr.body);

    let mut bullet_point = String::from_str("- ");
    bullet_point.append(url);
    bullet_point.append(" - ");
    bullet_point.append(description.as_str());
    bullet_point.append(", by ");
    bullet_point.append(author);

    let number = decimal_text(pr.number);
    let mut migration_note = String::from_str("### [");
    migration_note.append(number.as_str());
    migration_note.append(" - ");
    migration_note.append(description.as_str());
    migration_note.append("](");
    migration_note.append(url);
    migration_note.append(")");
    migration_note.append("\n\n");
    let breaking_changes = section_text(body, "# Breaking Changes");
    migration_note.append(breaking_changes.as_str());

    let release_notes = section_text(body, "In this release, we:");
    ChangelogInfo { is_breaking, pr_type, bullet_point, migration_note, release_notes }
}

/// The entry of a commit, from the pull requests associated with it: the first
/// of them yields the entry, and a commit with none is an error.
pub fn get_changelog_info(prs: &Vec<PullRequest>) -> (r: Result<ChangelogInfo, ChangelogError>)
    ensures
        prs@.len() == 0 ==> r == Err::<ChangelogInfo, ChangelogError>(
            ChangelogError::PullRequestNotFound,
        ),
        prs@.len() > 0 ==> r is Ok && r->Ok_0@ == entry_of(prs@[0]),
{
    if prs.len() == 0 {
        Err(ChangelogError::PullRequestNotFound)
    } else {
        Ok(entry_from_pull_request(&prs[0]))
    }
}

/// A title without `:` has category `misc` and an empty description.
pub proof fn lemma_title_without_colon(t: Seq<char>)
    requires
        !t.contains(':'),
    ensures
        category_of(Some(t)) == "misc"@,
        description_of(Some(t)) == Seq::<char>::empty(),
{
    lemma_char_absent(t, ':', 0);
}

/// The category of an entry is never empty.
pub proof fn lemma_category_not_empty(title: Option<Seq<char>>)
    ensures
        category_of(title).len() > 0,
{
    reveal_strlit("misc");
    if let Some(t) = title {
        lemma_first_char_bound(t, ':', 0);
    }
}

proof fn lemma_first_char_bound(s: Seq<char>, c: char, from: int)
    ensures
        first_char(s, c, from) < s.len(),
    decreases s.len() - from,
{
    if 0 <= from < s.len() && s[from] != c {
        lemma_first_char_bound(s, c, from + 1);
    }
}

/// A title that holds `!` anywhere marks a breaking change.
pub proof fn lemma_bang_is_breaking(t: Seq<char>)
    requires
        t.contains('!'),
    ensures
        breaking_of(Some(t)),
{
}

/// A body without the breaking-changes marker gives a migration note that is
/// its heading and a blank line, and nothing more.
pub proof fn lemma_migration_note_without_marker(pr: PullRequest)
    requires
        forall|k: int| !occurs_at(text_of(pr.body), "# Breaking Changes"@, k),
    ensures
        migration_of(pr) == migration_heading_of(pr) + "\n\n"@,
{
    lemma_no_occurrence(text_of(pr.body), "# Breaking Changes"@, 0);
    assert(migration_of(pr) =~= migration_heading_of(pr) + "\n\n"@);
}

proof fn lemma_char_absent(s: Seq<char>, c: char, from: int)
    requires
        0 <= from,
        !s.contains(c),
    ensures
        first_char(s, c, from) == -1,
    decreases s.len() - from,
{
    if from < s.len() {
        assert(s[from] != c);
        lemma_char_absent(s, c, from + 1);
    }
}

} // verus!
