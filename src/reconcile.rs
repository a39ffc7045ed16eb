use vstd::prelude::*;

verus! {

/// One edit of the sequence reconciler, at the cursor position `index`.
#[derive(Clone, Copy, Debug, PartialEq, Eq, Structural, Hash)]
pub enum Edit {
    /// Build a new element for the view `key` and insert it at `index`.
    Insert { index: usize, key: u64 },
    /// Tear down the element at `index`.
    Remove { index: usize },
    /// Exchange the element at `index` with the one `offset` places after it.
    Swap { index: usize, offset: usize },
}

/// The sequence `s` after the edit `e`; an edit out of range changes nothing.
pub open spec fn apply_edit(s: Seq<u64>, e: Edit) -> Seq<u64> {
    match e {
        Edit::Insert { index, key } => if index <= s.len() {
            s.insert(index as int, key)
        } else {
            s
        },
        Edit::Remove { index } => if index < s.len() {
            s.remove(index as int)
        } else {
            s
        },
        Edit::Swap { index, offset } => if index + offset < s.len() {
            s.update(index as int, s[index + offset]).update(index + offset, s[index as int])
        } else {
            s
        },
    }
}

/// The sequence `s` after the edits `edits`, in order.
pub open spec fn apply_edits(s: Seq<u64>, edits: Seq<Edit>) -> Seq<u64>
    decreases edits.len(),
{
    if edits.len() == 0 {
        s
    } else {
        apply_edit(apply_edits(s, edits.drop_last()), edits.last())
    }
}

/// Edit `j` of `edits`, made on `current` after the edits before it, builds
/// a new element only for a view whose key no element at or after the
/// cursor has: an element that could be reused never is rebuilt.
pub open spec fn insert_needed(current: Seq<u64>, edits: Seq<Edit>, j: int) -> bool {
    match edits[j] {
        Edit::Insert { index, key } => !apply_edits(current, edits.take(j)).skip(index as int).contains(key),
        _ => true,
    }
}

/// The first position at or after `j` where `cur` holds `key`, or -1.
pub open spec fn find_from(cur: Seq<u64>, key: u64, j: int) -> int
    decreases cur.len() - j,
{
    if j < 0 || j >= cur.len() {
        -1
    } else if cur[j] == key {
        j
    } else {
        find_from(cur, key, j + 1)
    }
}

/// `n` removals, each at position `at`.
pub open spec fn removals(n: int, at: usize) -> Seq<Edit> {
    Seq::new(if n > 0 { n as nat } else { 0 }, |k: int| Edit::Remove { index: at })
}

/// The edits of the cursor walk from position `i`, the elements being `cur`:
/// a matching element stays; otherwise the first matching element further
/// on is swapped in, or a new element is inserted; once every view has its
/// element, what is left past the end is removed.
pub open spec fn cursor_edits(cur: Seq<u64>, views: Seq<u64>, i: int) -> Seq<Edit>
    decreases views.len() - i,
{
    if i < 0 || i >= views.len() {
        removals(cur.len() - views.len(), views.len() as usize)
    } else if i < cur.len() && cur[i] == views[i] {
        cursor_edits(cur, views, i + 1)
    } else {
        let j = find_from(cur, views[i], i + 1);
        let e = if j >= 0 {
            Edit::Swap { index: i as usize, offset: (j - i) as usize }
        } else {
            Edit::Insert { index: i as usize, key: views[i] }
        };
        seq![e] + cursor_edits(apply_edit(cur, e), views, i + 1)
    }
}

/// The edits that the reconciler makes to turn `current` into `views`.
pub open spec fn diff_spec(current: Seq<u64>, views: Seq<u64>) -> Seq<Edit> {
    cursor_edits(current, views, 0)
}

/// Rebuilding with the views that built the elements, variant for variant
/// and position for position, takes no edit: no element is built or torn
/// down, every one is rebuilt in place.
pub proof fn lemma_unchanged_views_need_no_edits(keys: Seq<u64>)
    ensures
        diff_spec(keys, keys) == Seq::<Edit>::empty(),
{
    lemma_cursor_on_match(keys, 0);
}

proof fn lemma_cursor_on_match(keys: Seq<u64>, i: int)
    requires
        0 <= i <= keys.len(),
    ensures
        cursor_edits(keys, keys, i) == Seq::<Edit>::empty(),
    decreases keys.len() - i,
{
    if i < keys.len() {
        lemma_cursor_on_match(keys, i + 1);
    } else {
        assert(removals(0, keys.len() as usize) =~= Seq::<Edit>::empty());
    }
}

/// How many elements the edits build.
pub open spec fn insert_count(edits: Seq<Edit>) -> nat
    decreases edits.len(),
{
    if edits.len() == 0 {
        0
    } else {
        insert_count(edits.drop_last()) + if edits.last() is Insert {
            1nat
        } else {
            0nat
        }
    }
}

/// The edits of a first build: every view inserted in order.
pub open spec fn build_edits(views: Seq<u64>) -> Seq<Edit> {
    Seq::new(views.len(), |i: int| Edit::Insert { index: i as usize, key: views[i] })
}

/// A first build creates one element per view and leaves the elements in
/// the views' order. Together with [`diff`], which asks for no edit at all
/// when the views match the elements, the widgets created over a build and
/// any run of unchanged rebuilds are exactly those of the build.
pub proof fn lemma_build_edits_count(views: Seq<u64>)
    requires
        views.len() <= usize::MAX,
    ensures
        insert_count(build_edits(views)) == views.len(),
        apply_edits(Seq::empty(), build_edits(views)) == views,
    decreases views.len(),
{
    if views.len() > 0 {
        let init = views.drop_last();
        lemma_build_edits_count(init);
        assert(build_edits(views).drop_last() =~= build_edits(init));
        assert(apply_edits(Seq::empty(), build_edits(views)) == apply_edit(
            init,
            Edit::Insert { index: init.len() as usize, key: views.last() },
        ));
        assert(init.insert(init.len() as int, views.last()) =~= views);
    } else {
        assert(views =~= Seq::<u64>::empty());
    }
}

/// The edits that turn the element sequence `current` (one key per element,
/// the key naming the view variant it was built from) into one for `views`.
///
/// A cursor walks the views: an element whose key matches stays and is
/// rebuilt in place; otherwise a matching element further on is swapped in,
/// or a new one is inserted; what is left past the end is removed.
pub fn diff(current: &Vec<u64>, views: &Vec<u64>) -> (edits: Vec<Edit>)
    ensures
        edits@ == diff_spec(current@, views@),
        apply_edits(current@, edits@) == views@,
        current@ == views@ ==> edits@.len() == 0,
        current@ == views@ ==> insert_count(edits@) == 0,
        current@.len() == 0 ==> edits@ == build_edits(views@),
        current@.len() == 0 ==> insert_count(edits@) == views@.len(),
        forall|j: int| 0 <= j < edits@.len() ==> insert_needed(current@, edits@, j),
{
    let mut cur: Vec<u64> = Vec::new();
    let mut k: usize = 0;
    while k < current.len()
        invariant
            k <= current@.len(),
            cur@ == current@.take(k as int),
        decreases current@.len() - k,
    {
        cur.push(current[k]);
        k += 1;
        proof {
            assert(cur@ =~= current@.take(k as int));
        }
    }
    proof {
        assert(cur@ =~= current@);
    }
    let mut edits: Vec<Edit> = Vec::new();
    let mut i: usize = 0;
    while i < views.len()
        invariant
            i <= views@.len(),
            i <= cur@.len(),
            cur@.take(i as int) == views@.take(i as int),
            apply_edits(current@, edits@) == cur@,
            current@ == views@ ==> edits@.len() == 0 && cur@ == current@,
            current@.len() == 0 ==> cur@ == views@.take(i as int) && edits@ == build_edits(
                views@.take(i as int),
            ),
            forall|j: int| 0 <= j < edits@.len() ==> insert_needed(current@, edits@, j),
            edits@ + cursor_edits(cur@, views@, i as int) == diff_spec(current@, views@),
        decreases views@.len() - i,
    {
        let ghost before = cur@;
        if i < cur.len() && cur[i] == views[i] {
            i += 1;
            proof {
                assert(cur@.take(i as int) =~= views@.take(i as int));
                assert(cursor_edits(cur@, views@, i - 1) == cursor_edits(cur@, views@, i as int));
            }
        } else {
            let key = views[i];
            let mut j: usize = i + 1;
            let mut found = false;
            while j < cur.len()
                invariant
                    i + 1 <= j,
                    j <= cur@.len() || j == i + 1,
                    cur@ == before,
                    found ==> j < cur@.len() && cur@[j as int] == key,
                    !found ==> forall|m: int| i + 1 <= m < j ==> cur@[m] != key,
                    !found ==> find_from(cur@, key, i + 1) == find_from(cur@, key, j as int),
                    found ==> find_from(cur@, key, i + 1) == j,
                ensures
                    cur@ == before,
                    found ==> j < cur@.len() && cur@[j as int] == key,
                    !found ==> forall|m: int| i + 1 <= m < cur@.len() ==> cur@[m] != key,
                    found ==> find_from(before, key, i + 1) == j,
                    !found ==> find_from(before, key, i + 1) == -1,
                decreases cur@.len() - j + if found { 0int } else { 1int },
            {
                if cur[j] == key {
                    found = true;
                    break;
                }
                j += 1;
            }
            if found {
                let offset = j - i;
                let a = cur[i];
                let b = cur[j];
                cur.set(i, b);
                cur.set(j, a);
                let ghost prior = edits@;
                edits.push(Edit::Swap { index: i, offset });
                proof {
                    assert(edits@.drop_last() == prior);
                    assert forall|jj: int| 0 <= jj < edits@.len() implies insert_needed(current@, edits@, jj) by {
                        if jj < prior.len() {
                            assert(edits@.take(jj) =~= prior.take(jj));
                            assert(insert_needed(current@, prior, jj));
                        }
                    }
                    assert(cur@ == apply_edit(before, Edit::Swap { index: i, offset }));
                    assert(cur@.take(i as int + 1) =~= views@.take(i as int + 1)) by {
                        assert(before.take(i as int) == views@.take(i as int));
                        assert forall|m: int| 0 <= m < i implies cur@[m] == before[m] by {}
                    }
                    if current@.len() == 0 {
                        assert(before.len() == i);
                    }
                    if current@ == views@ {
                        assert(before[i as int] == views@[i as int]);
                    }
                }
            } else {
                cur.insert(i, key);
                let ghost prior = edits@;
                edits.push(Edit::Insert { index: i, key });
                proof {
                    assert(edits@.drop_last() == prior);
                    assert forall|jj: int| 0 <= jj < edits@.len() implies insert_needed(current@, edits@, jj) by {
                        if jj < prior.len() {
                            assert(edits@.take(jj) =~= prior.take(jj));
                            assert(insert_needed(current@, prior, jj));
                        } else {
                            assert(edits@.take(jj) =~= prior);
                            assert(!before.skip(i as int).contains(key)) by {
                                if before.skip(i as int).contains(key) {
                                    let m = choose|m: int| 0 <= m < before.skip(i as int).len() && before.skip(i as int)[m] == key;
                                    assert(before[i + m] == key);
                                }
                            }
                        }
                    }
                    assert(cur@ == apply_edit(before, Edit::Insert { index: i, key }));
                    assert(cur@.take(i as int + 1) =~= views@.take(i as int + 1)) by {
                        assert(before.take(i as int) == views@.take(i as int));
                        assert forall|m: int| 0 <= m < i implies cur@[m] == before[m] by {}
                    }
                    if current@.len() == 0 {
                        assert(before =~= views@.take(i as int));
                        assert(cur@ =~= views@.take(i as int + 1));
                        assert(build_edits(views@.take(i as int + 1)) =~= build_edits(
                            views@.take(i as int),
                        ).push(Edit::Insert { index: i, key }));
                    }
                    if current@ == views@ {
                        assert(before[i as int] == views@[i as int]);
                    }
                }
            }
            i += 1;
            proof {
                let e = edits@.last();
                assert(cur@ == apply_edit(before, e));
                assert(cursor_edits(before, views@, i - 1) == seq![e] + cursor_edits(cur@, views@, i as int));
                assert(edits@ + cursor_edits(cur@, views@, i as int) =~= edits@.drop_last() + (seq![e]
                    + cursor_edits(cur@, views@, i as int)));
            }
        }
    }
    proof {
        assert(cursor_edits(cur@, views@, i as int) == removals(cur@.len() - views@.len(), views@.len() as usize));
    }
    while cur.len() > views.len()
        invariant
            i == views@.len(),
            i <= cur@.len(),
            cur@.take(i as int) == views@.take(i as int),
            apply_edits(current@, edits@) == cur@,
            current@ == views@ ==> edits@.len() == 0 && cur@ == current@,
            current@.len() == 0 ==> cur@ == views@.take(i as int) && edits@ == build_edits(
                views@.take(i as int),
            ),
            forall|j: int| 0 <= j < edits@.len() ==> insert_needed(current@, edits@, j),
            edits@ + removals(cur@.len() - views@.len(), views@.len() as usize) == diff_spec(current@, views@),
        decreases cur@.len(),
    {
        let ghost before = cur@;
        let n = views.len();
        cur.remove(n);
        let ghost prior = edits@;
        edits.push(Edit::Remove { index: n });
        proof {
            assert(edits@.drop_last() == prior);
            let m = before.len() - views@.len();
            assert(removals(m, n) =~= seq![Edit::Remove { index: n }] + removals(m - 1, n));
            assert(edits@ + removals(cur@.len() - views@.len(), n) =~= prior + removals(m, n));
            assert forall|jj: int| 0 <= jj < edits@.len() implies insert_needed(current@, edits@, jj) by {
                if jj < prior.len() {
                    assert(edits@.take(jj) =~= prior.take(jj));
                    assert(insert_needed(current@, prior, jj));
                }
            }
            assert(cur@.take(i as int) =~= views@.take(i as int));
        }
    }
    proof {
        assert(cur@ =~= cur@.take(i as int));
        assert(views@ =~= views@.take(i as int));
        if current@.len() == 0 {
            lemma_build_edits_count(views@);
        }
    }
    edits
}

} // verus!
