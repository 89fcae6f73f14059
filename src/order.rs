use vstd::prelude::*;
use crate::entry::{
    entry_of, get_changelog_info, views, ChangelogError, ChangelogInfo, EntryView, PullRequest,
};
use crate::text::to_chars;

verus! {

broadcast use vstd::seq_lib::group_seq_properties;

/// `a` comes strictly before `b` in lexicographic order of code points.
pub open spec fn text_lt(a: Seq<char>, b: Seq<char>) -> bool
    decreases a.len(),
{
    if a.len() == 0 {
        b.len() > 0
    } else if b.len() == 0 {
        false
    } else if a[0] != b[0] {
        (a[0] as u32) < (b[0] as u32)
    } else {
        text_lt(a.drop_first(), b.drop_first())
    }
}

/// No entry has a category that comes before the category of an earlier one.
pub open spec fn sorted_by_category(s: Seq<EntryView>) -> bool {
    forall|i: int, j: int| 0 <= i < j < s.len() ==> !text_lt(s[j].category, s[i].category)
}

/// The entries of `s` whose category is `k`, in their order in `s`.
pub open spec fn in_category(s: Seq<EntryView>, k: Seq<char>) -> Seq<EntryView> {
    s.filter(|e: EntryView| e.category == k)
}

/// `r` is `s` sorted by category, where entries of one category keep the
/// order they have in `s`.
pub open spec fn is_stable_category_sort(r: Seq<EntryView>, s: Seq<EntryView>) -> bool {
    &&& r.len() == s.len()
    &&& sorted_by_category(r)
    &&& forall|k: Seq<char>| #[trigger] in_category(r, k) == in_category(s, k)
}

pub proof fn lemma_text_lt_irreflexive(a: Seq<char>)
    ensures
        !text_lt(a, a),
    decreases a.len(),
{
    if a.len() > 0 {
        lemma_text_lt_irreflexive(a.drop_first());
    }
}

pub proof fn lemma_text_lt_transitive(a: Seq<char>, b: Seq<char>, c: Seq<char>)
    requires
        text_lt(a, b),
        text_lt(b, c),
    ensures
        text_lt(a, c),
    decreases a.len(),
{
    if a.len() > 0 && b.len() > 0 && c.len() > 0 && a[0] == b[0] && b[0] == c[0] {
        lemma_text_lt_transitive(a.drop_first(), b.drop_first(), c.drop_first());
    }
}

/// Whether `a` comes strictly before `b`.
fn less_text(a: &Vec<char>, b: &Vec<char>) -> (r: bool)
    ensures
        r == text_lt(a@, b@),
{
    let mut i: usize = 0;
    while i < a.len() && i < b.len() && a[i] == b[i]
        invariant
            i <= a@.len(),
            i <= b@.len(),
            text_lt(a@, b@) == text_lt(a@.skip(i as int), b@.skip(i as int)),
        decreases a@.len() - i,
    {
        assert(a@.skip(i as int).drop_first() =~= a@.skip(i + 1));
        assert(b@.skip(i as int).drop_first() =~= b@.skip(i + 1));
        i = i + 1;
    }
    if i == a.len() {
        i < b.len()
    } else if i == b.len() {
        false
    } else {
        (a[i] as u32) < (b[i] as u32)
    }
}

proof fn lemma_single_category(x: EntryView, k: Seq<char>)
    ensures
        in_category(seq![x], k) == (if x.category == k {
            seq![x]
        } else {
            Seq::<EntryView>::empty()
        }),
{
    reveal_with_fuel(Seq::filter, 2);
    assert(seq![x].drop_last() =~= Seq::<EntryView>::empty());
}

proof fn lemma_no_category(s: Seq<EntryView>, k: Seq<char>)
    requires
        forall|t: int| 0 <= t < s.len() ==> s[t].category != k,
    ensures
        in_category(s, k) == Seq::<EntryView>::empty(),
{
    let pred = |e: EntryView| e.category == k;
    assert forall|e: EntryView| s.contains(e) implies !pred(e) by {}
    s.lemma_all_neg_filter_empty(pred);
    assert(in_category(s, k) =~= Seq::<EntryView>::empty());
}

/// Inserting `x` after every entry whose category does not come after its own,
/// and before the rest, keeps a sorted sequence sorted and adds `x` at the end
/// of its own category.
proof fn lemma_insert_sorted(out: Seq<EntryView>, x: EntryView, pos: int)
    requires
        0 <= pos <= out.len(),
        sorted_by_category(out),
        forall|t: int| 0 <= t < pos ==> !text_lt(x.category, #[trigger] out[t].category),
        pos < out.len() ==> text_lt(x.category, out[pos].category),
    ensures
        sorted_by_category(out.insert(pos, x)),
        forall|k: Seq<char>|
            #[trigger] in_category(out.insert(pos, x), k) == in_category(out, k) + in_category(
                seq![x],
                k,
            ),
{
    let r = out.insert(pos, x);
    assert forall|t: int| pos <= t < out.len() implies !text_lt(
        out[t].category,
        x.category,
    ) && out[t].category != x.category by {
        if text_lt(out[t].category, x.category) {
            lemma_text_lt_transitive(out[t].category, x.category, out[pos].category);
            if t == pos {
                lemma_text_lt_irreflexive(out[pos].category);
            }
        }
        if out[t].category == x.category && t != pos {
            assert(!text_lt(out[t].category, out[pos].category));
        }
        if t == pos {
            lemma_text_lt_irreflexive(x.category);
        }
    }
    assert forall|i: int, j: int| 0 <= i < j < r.len() implies !text_lt(
        r[j].category,
        r[i].category,
    ) by {
        if j < pos {
        } else if j == pos {
        } else if i < pos {
            if text_lt(r[j].category, r[i].category) {
                if pos < out.len() {
                    assert(r[j] == out[j - 1]);
                }
            }
        } else if i == pos {
        } else {
            assert(r[i] == out[i - 1] && r[j] == out[j - 1]);
        }
    }
    assert(r =~= out.take(pos) + seq![x] + out.skip(pos));
    assert(out =~= out.take(pos) + out.skip(pos));
    assert forall|k: Seq<char>| #[trigger]
        in_category(r, k) == in_category(out, k) + in_category(seq![x], k) by {
        let pred = |e: EntryView| e.category == k;
        Seq::filter_distributes_over_add(out.take(pos) + seq![x], out.skip(pos), pred);
        Seq::filter_distributes_over_add(out.take(pos), seq![x], pred);
        Seq::filter_distributes_over_add(out.take(pos), out.skip(pos), pred);
        lemma_single_category(x, k);
        if x.category == k {
            lemma_no_category(out.skip(pos), k);
            assert(in_category(r, k) =~= in_category(out, k) + in_category(seq![x], k));
        } else {
            assert(in_category(r, k) =~= in_category(out, k) + in_category(seq![x], k));
        }
    }
}

/// The entries sorted by category, in lexicographic order of code points;
/// entries of one category keep their order.
pub fn sort_by_category(v: Vec<ChangelogInfo>) -> (r: Vec<ChangelogInfo>)
    ensures
        is_stable_category_sort(views(r@), views(v@)),
{
    let ghost s = views(v@);
    let ghost orig = v@;
    let mut rest = v;
    let mut out: Vec<ChangelogInfo> = Vec::new();
    let mut keys: Vec<Vec<char>> = Vec::new();
    let n = rest.len();
    let mut i: usize = 0;
    while i < n
        invariant
            n == orig.len(),
            s == views(orig),
            i <= n,
            rest@ == orig.skip(i as int),
            out@.len() == keys@.len(),
            forall|t: int| 0 <= t < keys@.len() ==> #[trigger] keys@[t]@ == out@[t].pr_type@,
            sorted_by_category(views(out@)),
            views(out@).len() == i,
            forall|k: Seq<char>| #[trigger]
                in_category(views(out@), k) == in_category(s.take(i as int), k),
        decreases n - i,
    {
        let x = rest.remove(0);
        let kx = to_chars(x.pr_type.as_str());
        let mut pos: usize = 0;
        while pos < keys.len() && !less_text(&kx, &keys[pos])
            invariant
                pos <= keys@.len(),
                out@.len() == keys@.len(),
                kx@ == x.pr_type@,
                forall|t: int| 0 <= t < keys@.len() ==> #[trigger] keys@[t]@ == out@[t].pr_type@,
                forall|t: int|
                    0 <= t < pos ==> !text_lt(x@.category, #[trigger] views(out@)[t].category),
            decreases keys@.len() - pos,
        {
            pos = pos + 1;
        }
        let ghost before = out@;
        proof {
            lemma_insert_sorted(views(before), x@, pos as int);
            assert(views(before).insert(pos as int, x@) =~= views(before.insert(pos as int, x)));
            assert(s.take(i + 1) =~= s.take(i as int) + seq![x@]);
            assert forall|k: Seq<char>| #[trigger]
                in_category(s.take(i + 1), k) == in_category(s.take(i as int), k) + in_category(
                    seq![x@],
                    k,
                ) by {
                Seq::filter_distributes_over_add(
                    s.take(i as int),
                    seq![x@],
                    |e: EntryView| e.category == k,
                );
            }
            assert(orig.skip(i as int)[0] == x);
            assert(orig.skip(i + 1) =~= orig.skip(i as int).remove(0));
        }
        out.insert(pos, x);
        keys.insert(pos, kx);
        i = i + 1;
    }
    proof {
        assert(s.take(n as int) =~= s);
    }
    out
}

/// The views of the entries that the first pull request of each commit yields.
pub open spec fn entries_of(resolved: Seq<Vec<PullRequest>>) -> Seq<EntryView> {
    Seq::new(resolved.len(), |i: int| entry_of(resolved[i]@[0]))
}

/// The changelog entries of a commit range, from the pull requests associated
/// with each of its commits, in commit order: one entry per commit, sorted by
/// category with ties in commit order. A commit with no pull request fails the
/// whole range.
pub fn get_changelogs(resolved: Vec<Vec<PullRequest>>) -> (r: Result<
    Vec<ChangelogInfo>,
    ChangelogError,
>)
    ensures
        (exists|i: int| 0 <= i < resolved@.len() && resolved@[i]@.len() == 0) ==> r == Err::<
            Vec<ChangelogInfo>,
            ChangelogError,
        >(ChangelogError::PullRequestNotFound),
        (forall|i: int| 0 <= i < resolved@.len() ==> resolved@[i]@.len() > 0) ==> r is Ok
            && is_stable_category_sort(views(r->Ok_0@), entries_of(resolved@)),
{
    let mut entries: Vec<ChangelogInfo> = Vec::new();
    let mut i: usize = 0;
    while i < resolved.len()
        invariant
            i <= resolved@.len(),
            forall|j: int| 0 <= j < i ==> resolved@[j]@.len() > 0,
            views(entries@) =~= entries_of(resolved@).take(i as int),
        decreases resolved@.len() - i,
    {
        match get_changelog_info(&resolved[i]) {
            Err(e) => {
                return Err(e);
            },
            Ok(entry) => {
                let ghost before = entries@;
                entries.push(entry);
                assert(entries@ == before.push(entry));
                assert(views(entries@) =~= views(before).push(entry@));
            },
        }
        assert(views(entries@) =~= entries_of(resolved@).take(i + 1));
        i = i + 1;
    }
    assert(entries_of(resolved@).take(i as int) =~= entries_of(resolved@));
    Ok(sort_by_category(entries))
}

} // verus!
