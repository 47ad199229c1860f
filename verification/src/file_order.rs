//! The order in which the files of a directory are taken: by their names.

use vstd::prelude::*;
use vstd::seq_lib::{group_to_multiset_ensures, to_multiset_contains};
use crate::loading::{file_views, FileView, RuleFile};

verus! {

/// The order of names: by the first bytes that differ, and a proper prefix before
/// what it is a prefix of.
pub open spec fn name_precedes(a: Seq<u8>, b: Seq<u8>) -> bool
    decreases a.len(),
{
    if b.len() == 0 {
        false
    } else if a.len() == 0 {
        true
    } else if a[0] == b[0] {
        name_precedes(a.skip(1), b.skip(1))
    } else {
        a[0] < b[0]
    }
}

fn is_before(a: &Vec<u8>, b: &Vec<u8>) -> (r: bool)
    ensures
        r == name_precedes(a@, b@),
{
    let mut i: usize = 0;
    assert(a@.skip(0) == a@ && b@.skip(0) == b@);
    while i < a.len() && i < b.len()
        invariant
            i <= a@.len(),
            i <= b@.len(),
            name_precedes(a@, b@) == name_precedes(a@.skip(i as int), b@.skip(i as int)),
        decreases a.len() - i,
    {
        if a[i] != b[i] {
            return a[i] < b[i];
        }
        assert(a@.skip(i as int).skip(1) == a@.skip(i + 1));
        assert(b@.skip(i as int).skip(1) == b@.skip(i + 1));
        i = i + 1;
    }
    i < b.len()
}

/// `file` taken into files that are in order, behind those whose names do not come
/// after its own.
pub open spec fn inserted(files: Seq<FileView>, file: FileView) -> Seq<FileView>
    decreases files.len(),
{
    if files.len() == 0 || !name_precedes(file.name, files.last().name) {
        files.push(file)
    } else {
        inserted(files.drop_last(), file).push(files.last())
    }
}

/// The files in the order of their names.
pub open spec fn in_name_order(files: Seq<FileView>) -> Seq<FileView>
    decreases files.len(),
{
    if files.len() == 0 {
        Seq::empty()
    } else {
        inserted(in_name_order(files.drop_last()), files.last())
    }
}

/// No file stands behind one whose name comes after its own.
pub open spec fn sorted_by_name(files: Seq<FileView>) -> bool {
    forall|i: int, j: int|
        0 <= i < j < files.len() ==> !name_precedes(
            (#[trigger] files[j]).name,
            (#[trigger] files[i]).name,
        )
}

/// No two files have the same name.
pub open spec fn distinct_names(files: Seq<FileView>) -> bool {
    forall|i: int, j: int|
        0 <= i < j < files.len() ==> (#[trigger] files[i]).name != (#[trigger] files[j]).name
}

proof fn lemma_inserted_at(files: Seq<FileView>, file: FileView, at: int)
    requires
        0 <= at <= files.len(),
        at > 0 ==> !name_precedes(file.name, files[at - 1].name),
        forall|i: int|
            at <= i < files.len() ==> name_precedes(file.name, (#[trigger] files[i]).name),
    ensures
        inserted(files, file) == files.insert(at, file),
    decreases files.len(),
{
    if at < files.len() {
        let rest = files.drop_last();
        assert(files[files.len() - 1] == files.last());
        lemma_inserted_at(rest, file, at);
        assert(rest.insert(at, file).push(files.last()) == files.insert(at, file));
    } else {
        assert(files.push(file) == files.insert(at, file));
    }
}

/// Puts files in the order of their names.
pub fn order_files(files: Vec<RuleFile>) -> (r: Vec<RuleFile>)
    ensures
        file_views(r@) == in_name_order(file_views(files@)),
        sorted_by_name(file_views(r@)),
        file_views(r@).to_multiset() == file_views(files@).to_multiset(),
        r@.len() == files@.len(),
        forall|i: int, j: int|
            0 <= i < j < r@.len() ==> !name_precedes(
                (#[trigger] r@[j]).name@,
                (#[trigger] r@[i]).name@,
            ),
{
    let ghost all = file_views(files@);
    let mut sorted: Vec<RuleFile> = Vec::new();
    assert(file_views(sorted@) == in_name_order(all.take(0)));
    for file in it: files
        invariant
            it.seq() == files@,
            all == file_views(files@),
            sorted@.len() == it.index(),
            file_views(sorted@) == in_name_order(all.take(it.index() as int)),
    {
        let ghost before = sorted@;
        let mut at: usize = sorted.len();
        while at > 0 && is_before(&file.name, &sorted[at - 1].name)
            invariant
                at <= sorted@.len(),
                forall|i: int|
                    at <= i < sorted@.len() ==> name_precedes(
                        file@.name,
                        (#[trigger] file_views(sorted@)[i]).name,
                    ),
            decreases at,
        {
            at = at - 1;
        }
        proof {
            let next = all.take(it.index() + 1);
            assert(next.drop_last() == all.take(it.index() as int));
            assert(next.last() == file@);
            lemma_inserted_at(file_views(before), file@, at as int);
        }
        sorted.insert(at, file);
        assert(file_views(sorted@) == file_views(before).insert(at as int, file@));
    }
    assert(all.take(all.len() as int) == all);
    proof {
        name_order_sorts(all);
        let views = file_views(sorted@);
        assert forall|i: int, j: int| 0 <= i < j < sorted@.len() implies !name_precedes(
            (#[trigger] sorted@[j]).name@,
            (#[trigger] sorted@[i]).name@,
        ) by {
            assert(!name_precedes(views[j].name, views[i].name));
        }
    }
    sorted
}

proof fn lemma_irreflexive(a: Seq<u8>)
    ensures
        !name_precedes(a, a),
    decreases a.len(),
{
    if a.len() > 0 {
        lemma_irreflexive(a.skip(1));
    }
}

proof fn lemma_transitive(a: Seq<u8>, b: Seq<u8>, c: Seq<u8>)
    requires
        name_precedes(a, b),
        name_precedes(b, c),
    ensures
        name_precedes(a, c),
    decreases a.len(),
{
    if a.len() > 0 && a[0] == b[0] && b[0] == c[0] {
        lemma_transitive(a.skip(1), b.skip(1), c.skip(1));
    }
}

proof fn lemma_total(a: Seq<u8>, b: Seq<u8>)
    ensures
        a == b || name_precedes(a, b) || name_precedes(b, a),
    decreases a.len(),
{
    if a.len() > 0 && b.len() > 0 && a[0] == b[0] {
        lemma_total(a.skip(1), b.skip(1));
        if a.skip(1) == b.skip(1) {
            assert(a == seq![a[0]] + a.skip(1));
            assert(b == seq![b[0]] + b.skip(1));
        }
    } else if a.len() == 0 && b.len() == 0 {
        assert(a == b);
    }
}

proof fn lemma_inserted_sorts(files: Seq<FileView>, file: FileView)
    requires
        sorted_by_name(files),
    ensures
        sorted_by_name(inserted(files, file)),
        inserted(files, file).to_multiset() == files.to_multiset().insert(file),
        forall|x: FileView|
            inserted(files, file).contains(x) ==> #[trigger] files.contains(x) || x == file,
    decreases files.len(),
{
    broadcast use group_to_multiset_ensures;

    let after = inserted(files, file);
    if files.len() == 0 || !name_precedes(file.name, files.last().name) {
        assert forall|i: int, j: int| 0 <= i < j < after.len() implies !name_precedes(
            (#[trigger] after[j]).name,
            (#[trigger] after[i]).name,
        ) by {
            if j == files.len() {
                let last = files.last().name;
                let name = files[i].name;
                if i < files.len() - 1 && name_precedes(file.name, name) {
                    assert(!name_precedes(files[files.len() - 1].name, name));
                    lemma_total(last, name);
                    if last != name {
                        lemma_transitive(file.name, name, last);
                    }
                }
            }
        }
        assert forall|x: FileView| after.contains(x) implies #[trigger] files.contains(x) || x
            == file by {
            let i = choose|i: int| 0 <= i < after.len() && after[i] == x;
            if i < files.len() {
                assert(files[i] == x);
            }
        }
    } else {
        let rest = files.drop_last();
        let last = files.last();
        let front = inserted(rest, file);
        lemma_inserted_sorts(rest, file);
        assert(files == rest.push(last));
        assert(after == front.push(last));
        assert(after.to_multiset() =~= files.to_multiset().insert(file));
        assert forall|i: int, j: int| 0 <= i < j < after.len() implies !name_precedes(
            (#[trigger] after[j]).name,
            (#[trigger] after[i]).name,
        ) by {
            if j == front.len() {
                assert(front.contains(front[i]));
                if front[i] == file {
                    if name_precedes(last.name, file.name) {
                        lemma_transitive(file.name, last.name, file.name);
                        lemma_irreflexive(file.name);
                    }
                } else {
                    assert(rest.contains(front[i]));
                    let k = choose|k: int| 0 <= k < rest.len() && rest[k] == front[i];
                    assert(files[k] == front[i]);
                    assert(files[files.len() - 1] == last);
                }
            } else {
                assert(after[i] == front[i] && after[j] == front[j]);
            }
        }
        assert forall|x: FileView| after.contains(x) implies #[trigger] files.contains(x) || x
            == file by {
            let i = choose|i: int| 0 <= i < after.len() && after[i] == x;
            if i < front.len() {
                assert(front.contains(x));
                if x != file {
                    assert(rest.contains(x));
                    let k = choose|k: int| 0 <= k < rest.len() && rest[k] == x;
                    assert(files[k] == x);
                }
            } else {
                assert(files[files.len() - 1] == x);
            }
        }
    }
}

/// The files in the order of their names are all the files, each behind those whose
/// names come before its own.
pub proof fn name_order_sorts(files: Seq<FileView>)
    ensures
        sorted_by_name(in_name_order(files)),
        in_name_order(files).to_multiset() == files.to_multiset(),
        in_name_order(files).len() == files.len(),
    decreases files.len(),
{
    broadcast use group_to_multiset_ensures;

    if files.len() == 0 {
        assert(in_name_order(files) == files);
    } else {
        let rest = files.drop_last();
        name_order_sorts(rest);
        lemma_inserted_sorts(in_name_order(rest), files.last());
        assert(files == rest.push(files.last()));
        assert(files.to_multiset() =~= rest.to_multiset().insert(files.last()));
    }
    assert(files.len() == files.to_multiset().len());
    assert(in_name_order(files).len() == in_name_order(files).to_multiset().len());
}

proof fn lemma_sorted_is_unique(x: Seq<FileView>, y: Seq<FileView>)
    requires
        sorted_by_name(x),
        sorted_by_name(y),
        distinct_names(x),
        x.to_multiset() == y.to_multiset(),
    ensures
        x == y,
    decreases x.len(),
{
    broadcast use group_to_multiset_ensures;

    assert(x.len() == x.to_multiset().len());
    assert(y.len() == y.to_multiset().len());
    if x.len() == 0 {
        assert(x == y);
    } else {
        let n = x.len() - 1;
        let p = x.last();
        let q = y.last();
        assert(x[n] == p && y[n] == q);
        assert(y.contains(p)) by {
            assert(x.contains(p));
            to_multiset_contains(x, p);
            to_multiset_contains(y, p);
        }
        assert(x.contains(q)) by {
            assert(y.contains(q));
            to_multiset_contains(x, q);
            to_multiset_contains(y, q);
        }
        let i = choose|i: int| 0 <= i < y.len() && y[i] == p;
        let j = choose|j: int| 0 <= j < x.len() && x[j] == q;
        lemma_total(p.name, q.name);
        lemma_irreflexive(p.name);
        assert(!name_precedes(q.name, p.name)) by {
            if i < n {
                assert(!name_precedes(y[n].name, y[i].name));
            }
        }
        assert(!name_precedes(p.name, q.name)) by {
            if j < n {
                assert(!name_precedes(x[n].name, x[j].name));
            }
        }
        assert(p == q) by {
            if j < n {
                assert(x[j].name != x[n].name);
            }
        }
        let u = x.drop_last();
        let v = y.drop_last();
        assert(x == u.push(p));
        assert(y == v.push(q));
        assert(u.to_multiset() == x.to_multiset().remove(p));
        assert(v.to_multiset() == y.to_multiset().remove(p));
        assert forall|k: int, l: int| 0 <= k < l < u.len() implies (#[trigger] u[k]).name != (
        #[trigger] u[l]).name by {
            assert(x[k].name != x[l].name);
        }
        lemma_sorted_is_unique(u, v);
    }
}

/// The order of the names of files does not depend on the order in which the files
/// come, as long as no two of them have the same name.
pub proof fn name_order_is_determined(a: Seq<FileView>, b: Seq<FileView>)
    requires
        a.to_multiset() == b.to_multiset(),
        distinct_names(a),
    ensures
        in_name_order(a) == in_name_order(b),
{
    broadcast use group_to_multiset_ensures;

    name_order_sorts(a);
    name_order_sorts(b);
    let x = in_name_order(a);
    assert(a.no_duplicates()) by {
        assert forall|i: int, j: int|
            0 <= i < a.len() && 0 <= j < a.len() && i != j implies a[i] != a[j] by {
            if i < j {
                assert(a[i].name != a[j].name);
            } else {
                assert(a[j].name != a[i].name);
            }
        }
    }
    a.lemma_multiset_has_no_duplicates();
    x.lemma_multiset_has_no_duplicates_conv();
    assert forall|i: int, j: int| 0 <= i < j < x.len() implies (#[trigger] x[i]).name != (
    #[trigger] x[j]).name by {
        assert(a.contains(x[i])) by {
            assert(x.contains(x[i]));
            to_multiset_contains(a, x[i]);
            to_multiset_contains(x, x[i]);
        }
        assert(a.contains(x[j])) by {
            assert(x.contains(x[j]));
            to_multiset_contains(a, x[j]);
            to_multiset_contains(x, x[j]);
        }
        let p = choose|p: int| 0 <= p < a.len() && a[p] == x[i];
        let q = choose|q: int| 0 <= q < a.len() && a[q] == x[j];
        assert(x[i] != x[j]);
        if p < q {
            assert(a[p].name != a[q].name);
        } else {
            assert(a[q].name != a[p].name);
        }
    }
    lemma_sorted_is_unique(x, in_name_order(b));
}

/// One name comes before another exactly where the bytes before some position are the
/// same, and there the first name has come to its end and the other has not, or has the
/// smaller byte.
pub proof fn names_are_ordered_by_their_first_difference(a: Seq<u8>, b: Seq<u8>)
    ensures
        name_precedes(a, b) <==> exists|k: int|
            {
                &&& 0 <= k < b.len()
                &&& k <= a.len()
                &&& #[trigger] a.take(k) == b.take(k)
                &&& k == a.len() || a[k] < b[k]
            },
    decreases a.len(),
{
    if b.len() > 0 && a.len() == 0 {
        assert(a.take(0) == b.take(0));
    } else if b.len() > 0 && a[0] != b[0] {
        if a[0] < b[0] {
            assert(a.take(0) == b.take(0));
        }
        assert forall|k: int|
            0 < k < b.len() && k <= a.len() implies #[trigger] a.take(k) != b.take(k) by {
            assert(a.take(k)[0] == a[0] && b.take(k)[0] == b[0]);
        }
    } else if b.len() > 0 {
        let x = a.skip(1);
        let y = b.skip(1);
        names_are_ordered_by_their_first_difference(x, y);
        if name_precedes(x, y) {
            let k = choose|k: int|
                {
                    &&& 0 <= k < y.len()
                    &&& k <= x.len()
                    &&& #[trigger] x.take(k) == y.take(k)
                    &&& k == x.len() || x[k] < y[k]
                };
            assert(a.take(k + 1) == seq![a[0]] + x.take(k));
            assert(b.take(k + 1) == seq![b[0]] + y.take(k));
            assert(k + 1 == a.len() || a[k + 1] < b[k + 1]);
        }
        if exists|k: int|
            {
                &&& 0 <= k < b.len()
                &&& k <= a.len()
                &&& #[trigger] a.take(k) == b.take(k)
                &&& k == a.len() || a[k] < b[k]
            } {
            let k = choose|k: int|
                {
                    &&& 0 <= k < b.len()
                    &&& k <= a.len()
                    &&& #[trigger] a.take(k) == b.take(k)
                    &&& k == a.len() || a[k] < b[k]
                };
            assert(k > 0);
            assert(x.take(k - 1) == a.take(k).skip(1));
            assert(y.take(k - 1) == b.take(k).skip(1));
            assert(k - 1 == x.len() || x[k - 1] < y[k - 1]);
        }
    }
}

/// The files in the order of their names are all the files, each but the first behind
/// one whose name does not come after its own.
pub proof fn ordered_files_stand_by_their_names(files: Seq<FileView>)
    ensures
        in_name_order(files).to_multiset() == files.to_multiset(),
        forall|i: int, j: int|
            0 <= i < j < in_name_order(files).len() ==> !name_precedes(
                (#[trigger] in_name_order(files)[j]).name,
                (#[trigger] in_name_order(files)[i]).name,
            ),
        forall|file: FileView| files.contains(file) <==> #[trigger] in_name_order(files).contains(
            file,
        ),
{
    name_order_sorts(files);
    assert forall|file: FileView| files.contains(file) <==> #[trigger] in_name_order(
        files,
    ).contains(file) by {
        to_multiset_contains(files, file);
        to_multiset_contains(in_name_order(files), file);
    }
}

/// A file whose name comes before none of the others stands behind them, and leaves them
/// where they stand.
pub proof fn the_last_name_stands_last(files: Seq<FileView>, file: FileView)
    requires
        forall|i: int|
            0 <= i < files.len() ==> !name_precedes(file.name, (#[trigger] files[i]).name),
    ensures
        in_name_order(files.push(file)) == in_name_order(files).push(file),
{
    let ordered = in_name_order(files);
    ordered_files_stand_by_their_names(files);
    assert(files.push(file).drop_last() == files);
    if ordered.len() > 0 {
        let last = ordered.last();
        assert(ordered.contains(last));
        let i = choose|i: int| 0 <= i < files.len() && files[i] == last;
        assert(!name_precedes(file.name, files[i].name));
    }
}

} // verus!
