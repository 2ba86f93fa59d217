//! The order in which the files of a dependency are searched.
//!
//! Paths are compared component by component and components character by
//! character. This is the order of a depth-first walk that takes the entries
//! of every directory by name, so the search does not depend on the order in
//! which a file system lists them.

use crate::project::{SourceFile, SourceFileView};
use crate::text::chars_of;
use vstd::multiset::Multiset;
use vstd::prelude::*;

verus! {

/// Whether a text comes before another: at the first place where they differ
/// it has the smaller character, or it ends there.
pub open spec fn text_before(a: Seq<char>, b: Seq<char>) -> bool
    decreases a.len(),
{
    if b.len() == 0 {
        false
    } else if a.len() == 0 {
        true
    } else if a[0] != b[0] {
        a[0] < b[0]
    } else {
        text_before(a.skip(1), b.skip(1))
    }
}

/// Whether a path comes before another: at the first place where they differ
/// it has the component that comes before, or it ends there.
pub open spec fn path_before(a: Seq<Seq<char>>, b: Seq<Seq<char>>) -> bool
    decreases a.len(),
{
    if b.len() == 0 {
        false
    } else if a.len() == 0 {
        true
    } else if a[0] != b[0] {
        text_before(a[0], b[0])
    } else {
        path_before(a.skip(1), b.skip(1))
    }
}

/// A sorted list with one more file: the file stands behind every file that
/// does not come after it.
pub open spec fn insert_by_path(sorted: Seq<SourceFileView>, file: SourceFileView) -> Seq<
    SourceFileView,
>
    decreases sorted.len(),
{
    if sorted.len() > 0 && path_before(file.path, sorted.last().path) {
        insert_by_path(sorted.drop_last(), file).push(sorted.last())
    } else {
        sorted.push(file)
    }
}

/// The files in the order of their paths. Files with one path keep the order
/// in which they are given.
pub open spec fn sort_by_path(files: Seq<SourceFileView>) -> Seq<SourceFileView>
    decreases files.len(),
{
    if files.len() == 0 {
        Seq::empty()
    } else {
        insert_by_path(sort_by_path(files.drop_last()), files.last())
    }
}

/// Whether no file of the list comes before one that stands earlier.
pub open spec fn is_ordered(files: Seq<SourceFileView>) -> bool {
    forall|i: int, j: int|
        0 <= i < j < files.len() ==> !path_before(
            #[trigger] files[j].path,
            #[trigger] files[i].path,
        )
}

/// Inserting at the place behind the last file that does not come after the
/// new one.
pub proof fn lemma_insert_position(sorted: Seq<SourceFileView>, file: SourceFileView, at: int)
    requires
        0 <= at <= sorted.len(),
        forall|j: int| at <= j < sorted.len() ==> path_before(file.path, #[trigger] sorted[j].path),
        at > 0 ==> !path_before(file.path, sorted[at - 1].path),
    ensures
        insert_by_path(sorted, file) == sorted.insert(at, file),
    decreases sorted.len() - at,
{
    if at == sorted.len() {
        assert(sorted.insert(at, file) =~= sorted.push(file));
    } else {
        let shorter = sorted.drop_last();
        assert forall|j: int| at <= j < shorter.len() implies path_before(
            file.path,
            #[trigger] shorter[j].path,
        ) by {
            assert(shorter[j] == sorted[j]);
        }
        lemma_insert_position(shorter, file, at);
        assert(shorter.insert(at, file).push(sorted.last()) =~= sorted.insert(at, file));
    }
}

/// A sorted list with one more file holds the files of the list and the new
/// one, and is ordered where the list is.
pub proof fn lemma_insert_ordered(sorted: Seq<SourceFileView>, file: SourceFileView)
    requires
        is_ordered(sorted),
    ensures
        is_ordered(insert_by_path(sorted, file)),
        insert_by_path(sorted, file).to_multiset() == sorted.to_multiset().insert(file),
        insert_by_path(sorted, file).len() == sorted.len() + 1,
    decreases sorted.len(),
{
    broadcast use vstd::seq_lib::group_to_multiset_ensures;

    if sorted.len() > 0 && path_before(file.path, sorted.last().path) {
        let shorter = sorted.drop_last();
        let last = sorted.last();
        assert forall|i: int, j: int| 0 <= i < j < shorter.len() implies !path_before(
            #[trigger] shorter[j].path,
            #[trigger] shorter[i].path,
        ) by {
            assert(shorter[i] == sorted[i]);
            assert(shorter[j] == sorted[j]);
        }
        lemma_insert_ordered(shorter, file);
        let placed = insert_by_path(shorter, file);
        assert(sorted =~= shorter.push(last));
        assert forall|i: int, j: int| 0 <= i < j < placed.push(last).len() implies !path_before(
            #[trigger] placed.push(last)[j].path,
            #[trigger] placed.push(last)[i].path,
        ) by {
            if j < placed.len() {
            } else {
                let earlier = placed[i];
                assert(placed.to_multiset().count(earlier) > 0);
                if earlier == file {
                    lemma_not_both_before(file.path, last.path);
                } else {
                    assert(shorter.to_multiset().count(earlier) > 0);
                    let k = choose|k: int| 0 <= k < shorter.len() && shorter[k] == earlier;
                    assert(sorted[k] == earlier);
                    assert(sorted[sorted.len() - 1] == last);
                }
            }
        }
        assert(placed.push(last).to_multiset() =~= sorted.to_multiset().insert(file));
    } else {
        assert forall|i: int, j: int| 0 <= i < j < sorted.push(file).len() implies !path_before(
            #[trigger] sorted.push(file)[j].path,
            #[trigger] sorted.push(file)[i].path,
        ) by {
            if j < sorted.len() {
                assert(sorted.push(file)[i] == sorted[i]);
                assert(sorted.push(file)[j] == sorted[j]);
            } else if i == sorted.len() - 1 {
            } else {
                assert(sorted.push(file)[i] == sorted[i]);
                lemma_before_chain(file.path, sorted.last().path, sorted[i].path);
            }
        }
    }
}

/// No text comes before itself, and of two texts at most one comes before
/// the other.
pub proof fn lemma_text_not_both_before(a: Seq<char>, b: Seq<char>)
    ensures
        !(text_before(a, b) && text_before(b, a)),
    decreases a.len(),
{
    if a.len() > 0 && b.len() > 0 && a[0] == b[0] {
        lemma_text_not_both_before(a.skip(1), b.skip(1));
    }
}

/// Of two paths at most one comes before the other.
pub proof fn lemma_not_both_before(a: Seq<Seq<char>>, b: Seq<Seq<char>>)
    ensures
        !(path_before(a, b) && path_before(b, a)),
    decreases a.len(),
{
    if a.len() > 0 && b.len() > 0 {
        if a[0] == b[0] {
            lemma_not_both_before(a.skip(1), b.skip(1));
        } else {
            lemma_text_not_both_before(a[0], b[0]);
        }
    }
}

/// Of two different texts one comes before the other.
pub proof fn lemma_text_total(a: Seq<char>, b: Seq<char>)
    ensures
        a == b || text_before(a, b) || text_before(b, a),
    decreases a.len(),
{
    if a.len() > 0 && b.len() > 0 && a[0] == b[0] {
        lemma_text_total(a.skip(1), b.skip(1));
        if a.skip(1) == b.skip(1) {
            assert(a =~= seq![a[0]] + a.skip(1));
            assert(b =~= seq![b[0]] + b.skip(1));
        }
    } else if a.len() == 0 && b.len() == 0 {
        assert(a =~= b);
    }
}

/// Of two different paths one comes before the other.
pub proof fn lemma_path_total(a: Seq<Seq<char>>, b: Seq<Seq<char>>)
    ensures
        a == b || path_before(a, b) || path_before(b, a),
    decreases a.len(),
{
    if a.len() > 0 && b.len() > 0 {
        if a[0] == b[0] {
            lemma_path_total(a.skip(1), b.skip(1));
            if a.skip(1) == b.skip(1) {
                assert(a =~= seq![a[0]] + a.skip(1));
                assert(b =~= seq![b[0]] + b.skip(1));
            }
        } else {
            lemma_text_total(a[0], b[0]);
        }
    } else if a.len() == 0 && b.len() == 0 {
        assert(a =~= b);
    }
}

/// A text that comes before a second, which comes before a third, comes
/// before the third.
pub proof fn lemma_text_before_transitive(a: Seq<char>, b: Seq<char>, c: Seq<char>)
    requires
        text_before(a, b),
        text_before(b, c),
    ensures
        text_before(a, c),
    decreases a.len(),
{
    if a.len() > 0 && b.len() > 0 && c.len() > 0 && a[0] == b[0] && b[0] == c[0] {
        lemma_text_before_transitive(a.skip(1), b.skip(1), c.skip(1));
    }
}

/// A path that comes before a second, which comes before a third, comes
/// before the third.
pub proof fn lemma_before_transitive(a: Seq<Seq<char>>, b: Seq<Seq<char>>, c: Seq<Seq<char>>)
    requires
        path_before(a, b),
        path_before(b, c),
    ensures
        path_before(a, c),
    decreases a.len(),
{
    if a.len() > 0 && b.len() > 0 && c.len() > 0 {
        if a[0] == b[0] && b[0] == c[0] {
            lemma_before_transitive(a.skip(1), b.skip(1), c.skip(1));
        } else if a[0] != b[0] && b[0] != c[0] {
            lemma_text_before_transitive(a[0], b[0], c[0]);
            lemma_text_not_both_before(a[0], b[0]);
        }
    }
}

/// A path that does not come before a second, which does not come before a
/// third, does not come before the third.
pub proof fn lemma_before_chain(a: Seq<Seq<char>>, b: Seq<Seq<char>>, c: Seq<Seq<char>>)
    requires
        !path_before(a, b),
        !path_before(b, c),
    ensures
        !path_before(a, c),
{
    if path_before(a, c) {
        lemma_path_total(a, b);
        lemma_path_total(b, c);
        if a == b {
        } else if b == c {
        } else {
            lemma_before_transitive(c, b, a);
            lemma_not_both_before(a, c);
        }
    }
}

/// The sorted files are ordered and are the given files, each as often as it
/// is given.
pub proof fn law_sort_orders(files: Seq<SourceFileView>)
    ensures
        is_ordered(sort_by_path(files)),
        sort_by_path(files).to_multiset() == files.to_multiset(),
        sort_by_path(files).len() == files.len(),
    decreases files.len(),
{
    broadcast use vstd::seq_lib::group_to_multiset_ensures;

    if files.len() > 0 {
        law_sort_orders(files.drop_last());
        lemma_insert_ordered(sort_by_path(files.drop_last()), files.last());
        assert(files =~= files.drop_last().push(files.last()));
    }
}

/// Whether no file occurs twice and no two files have one path.
pub open spec fn has_distinct_paths(files: Multiset<SourceFileView>) -> bool {
    &&& forall|f: SourceFileView| #[trigger] files.count(f) <= 1
    &&& forall|f: SourceFileView, g: SourceFileView|
        #[trigger] files.count(f) > 0 && #[trigger] files.count(g) > 0 && f.path == g.path ==> f
            == g
}

/// Two ordered lists that hold the same files, no two with one path, are the
/// same list.
pub proof fn lemma_ordered_unique(s: Seq<SourceFileView>, t: Seq<SourceFileView>)
    requires
        is_ordered(s),
        is_ordered(t),
        s.to_multiset() == t.to_multiset(),
        has_distinct_paths(s.to_multiset()),
    ensures
        s == t,
    decreases s.len(),
{
    broadcast use vstd::seq_lib::group_to_multiset_ensures;
    broadcast use vstd::multiset::group_multiset_axioms;

    vstd::seq_lib::to_multiset_len(s);
    vstd::seq_lib::to_multiset_len(t);
    if s.len() == 0 {
        assert(s =~= t);
    } else {
        let x = s.last();
        let y = t.last();
        let front_s = s.drop_last();
        let front_t = t.drop_last();
        assert(s =~= front_s.push(x));
        assert(t =~= front_t.push(y));
        if x != y {
            assert(t.contains(y)) by {
                assert(t[t.len() - 1] == y);
            }
            assert(s.to_multiset().count(y) > 0);
            assert(s.contains(y));
            let j = choose|j: int| 0 <= j < s.len() && s[j] == y;
            assert(!path_before(s[s.len() - 1].path, s[j].path));
            assert(s.contains(x)) by {
                assert(s[s.len() - 1] == x);
            }
            assert(t.to_multiset().count(x) > 0);
            assert(t.contains(x));
            let k = choose|k: int| 0 <= k < t.len() && t[k] == x;
            assert(!path_before(t[t.len() - 1].path, t[k].path));
            lemma_path_total(x.path, y.path);
            assert(false);
        }
        assert(s.to_multiset() =~= front_s.to_multiset().insert(x));
        assert(t.to_multiset() =~= front_t.to_multiset().insert(x));
        assert forall|f: SourceFileView|
            front_s.to_multiset().count(f) == front_t.to_multiset().count(f) by {
            assert(front_s.to_multiset().insert(x).count(f) == front_t.to_multiset().insert(
                x,
            ).count(f));
        }
        assert(front_s.to_multiset() =~= front_t.to_multiset());
        assert forall|f: SourceFileView| #[trigger] front_s.to_multiset().count(f) <= 1 by {
            assert(s.to_multiset().count(f) <= 1);
        }
        assert forall|f: SourceFileView, g: SourceFileView|
            #[trigger] front_s.to_multiset().count(f) > 0 && #[trigger] front_s.to_multiset().count(
                g,
            ) > 0 && f.path == g.path implies f == g by {
            assert(s.to_multiset().count(f) > 0);
            assert(s.to_multiset().count(g) > 0);
        }
        assert forall|i: int, j: int| 0 <= i < j < front_s.len() implies !path_before(
            #[trigger] front_s[j].path,
            #[trigger] front_s[i].path,
        ) by {
            assert(front_s[i] == s[i] && front_s[j] == s[j]);
        }
        assert forall|i: int, j: int| 0 <= i < j < front_t.len() implies !path_before(
            #[trigger] front_t[j].path,
            #[trigger] front_t[i].path,
        ) by {
            assert(front_t[i] == t[i] && front_t[j] == t[j]);
        }
        lemma_ordered_unique(front_s, front_t);
    }
}

/// The order in which the files of a tree are listed does not matter: two
/// listings of the same files, no two with one path, are sorted to the same
/// list.
pub proof fn law_listing_order_is_irrelevant(
    first: Seq<SourceFileView>,
    second: Seq<SourceFileView>,
)
    requires
        first.to_multiset() == second.to_multiset(),
        has_distinct_paths(first.to_multiset()),
    ensures
        sort_by_path(first) == sort_by_path(second),
{
    law_sort_orders(first);
    law_sort_orders(second);
    lemma_ordered_unique(sort_by_path(first), sort_by_path(second));
}

/// Whether a text comes before another.
pub fn before_text(a: &String, b: &String) -> (r: bool)
    ensures
        r == text_before(a@, b@),
{
    let left = chars_of(a.as_str());
    let right = chars_of(b.as_str());
    let mut i: usize = 0;
    assert(a@.skip(0) =~= a@);
    assert(b@.skip(0) =~= b@);
    while i < left.len() && i < right.len()
        invariant
            left@ == a@,
            right@ == b@,
            i <= left.len(),
            i <= right.len(),
            text_before(a@, b@) == text_before(a@.skip(i as int), b@.skip(i as int)),
        decreases left.len() - i,
    {
        proof {
            assert(a@.skip(i as int).skip(1) =~= a@.skip(i + 1));
            assert(b@.skip(i as int).skip(1) =~= b@.skip(i + 1));
        }
        if left[i] != right[i] {
            return left[i] < right[i];
        }
        i += 1;
    }
    i < right.len()
}

/// Whether a path comes before another.
pub fn before_path(a: &Vec<String>, b: &Vec<String>) -> (r: bool)
    ensures
        r == path_before(a.deep_view(), b.deep_view()),
{
    let ghost left = a.deep_view();
    let ghost right = b.deep_view();
    let mut i: usize = 0;
    assert(left.skip(0) =~= left);
    assert(right.skip(0) =~= right);
    while i < a.len() && i < b.len()
        invariant
            left == a.deep_view(),
            right == b.deep_view(),
            i <= a.len(),
            i <= b.len(),
            path_before(left, right) == path_before(left.skip(i as int), right.skip(i as int)),
        decreases a.len() - i,
    {
        proof {
            assert(left.skip(i as int).skip(1) =~= left.skip(i + 1));
            assert(right.skip(i as int).skip(1) =~= right.skip(i + 1));
        }
        if a[i] != b[i] {
            return before_text(&a[i], &b[i]);
        }
        i += 1;
    }
    i < b.len()
}

/// The files in the order of their paths: the same files, none before one
/// that stands earlier, and files with one path in the order in which they
/// are given.
pub fn sort_files<'a>(files: &'a Vec<SourceFile>) -> (r: Vec<&'a SourceFile>)
    ensures
        r.deep_view() == sort_by_path(files.deep_view()),
        is_ordered(r.deep_view()),
        r.deep_view().to_multiset() == files.deep_view().to_multiset(),
{
    let ghost all = files.deep_view();
    let mut sorted: Vec<&'a SourceFile> = Vec::new();
    let mut i: usize = 0;
    assert(sorted.deep_view() =~= Seq::<SourceFileView>::empty());
    while i < files.len()
        invariant
            i <= files.len(),
            all == files.deep_view(),
            sorted.len() == i,
            sorted.deep_view() == sort_by_path(all.take(i as int)),
        decreases files.len() - i,
    {
        proof {
            assert(all.take(i + 1).drop_last() =~= all.take(i as int));
            assert(all.take(i + 1).last() == files@[i as int].deep_view());
        }
        let ghost before = sorted.deep_view();
        let file = &files[i];
        let mut at: usize = sorted.len();
        while at > 0 && before_path(&file.path, &sorted[at - 1].path)
            invariant
                at <= sorted.len(),
                before == sorted.deep_view(),
                forall|j: int|
                    at <= j < sorted.len() ==> path_before(
                        file.deep_view().path,
                        #[trigger] before[j].path,
                    ),
            decreases at,
        {
            at -= 1;
        }
        proof {
            lemma_insert_position(before, file.deep_view(), at as int);
        }
        sorted.insert(at, file);
        assert(sorted.deep_view() =~= before.insert(at as int, file.deep_view()));
        i += 1;
    }
    assert(all.take(files.len() as int) =~= all);
    proof {
        law_sort_orders(all);
    }
    sorted
}

} // verus!
