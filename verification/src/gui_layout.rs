//! Which layout places which item of a gui. The layouts place their
//! children depth first: the root layout places its children one after
//! the other, and an item that holds a layout has the children of that
//! layout placed right after it, the layouts being taken in order. The
//! positions themselves are floating point values that the caller computes
//! following this plan.

use vstd::prelude::*;

verus! {

/// A walk through the items: the open layouts with the number of children
/// each still has to place, the next layout to open, the layout of each
/// item visited so far, and whether the walk could go on.
pub struct LayoutWalk {
    pub stack: Seq<(int, int)>,
    pub next: int,
    pub parents: Seq<int>,
    pub ok: bool,
}

/// The open layouts once those that placed all their children are closed.
pub open spec fn pop_done(stack: Seq<(int, int)>) -> Seq<(int, int)>
    decreases stack.len(),
{
    if stack.len() > 0 && stack.last().1 == 0 {
        pop_done(stack.drop_last())
    } else {
        stack
    }
}

/// The walk before any item: the root layout, if there is one, is open.
pub open spec fn walk_start(children: Seq<u32>) -> LayoutWalk {
    LayoutWalk {
        stack: if children.len() > 0 { seq![(0int, children[0] as int)] } else { Seq::empty() },
        next: 1,
        parents: Seq::empty(),
        ok: true,
    }
}

/// The walk after the next item, which holds a layout or not: it is placed
/// by the innermost open layout that has children left to place, and the
/// layout it holds, the next one, opens. When no layout is left to place
/// it the walk is over and nothing changes; when it holds a layout that
/// does not exist the walk fails.
pub open spec fn walk_step(children: Seq<u32>, w: LayoutWalk, has_layout: bool) -> LayoutWalk {
    if !w.ok {
        w
    } else {
        let st = pop_done(w.stack);
        if st.len() == 0 {
            LayoutWalk { stack: st, ..w }
        } else {
            let top = st.last();
            let placed = st.update(st.len() - 1, (top.0, top.1 - 1));
            let parents = w.parents.push(top.0);
            if !has_layout {
                LayoutWalk { stack: placed, next: w.next, parents, ok: true }
            } else if w.next < children.len() {
                LayoutWalk {
                    stack: placed.push((w.next, children[w.next] as int)),
                    next: w.next + 1,
                    parents,
                    ok: true,
                }
            } else {
                LayoutWalk { stack: placed, next: w.next, parents, ok: false }
            }
        }
    }
}

/// The walk after the first `n` items.
pub open spec fn walk(children: Seq<u32>, has_layout: Seq<bool>, n: int) -> LayoutWalk
    decreases n,
{
    if n <= 0 || n > has_layout.len() {
        walk_start(children)
    } else {
        walk_step(children, walk(children, has_layout, n - 1), has_layout[n - 1])
    }
}

/// The layout of each item that is placed, given the number of children of
/// each layout and whether each item holds a layout; none when the walk
/// fails or a layout has more children than there are items.
pub open spec fn layout_plan_of(children: Seq<u32>, has_layout: Seq<bool>) -> Option<Seq<int>> {
    let w = walk(children, has_layout, has_layout.len() as int);
    if w.ok && pop_done(w.stack).len() == 0 {
        Some(w.parents)
    } else {
        None
    }
}

/// The stack as the exec walk holds it.
pub open spec fn stack_view(s: Seq<(usize, u32)>) -> Seq<(int, int)> {
    s.map_values(|e: (usize, u32)| (e.0 as int, e.1 as int))
}

/// The layouts as the exec walk records them.
pub open spec fn parents_view(p: Seq<usize>) -> Seq<int> {
    p.map_values(|l: usize| l as int)
}

/// A failed walk stays failed.
proof fn lemma_walk_failed(children: Seq<u32>, has_layout: Seq<bool>, i: int, n: int)
    requires
        0 <= i <= n <= has_layout.len(),
        !walk(children, has_layout, i).ok,
    ensures
        !walk(children, has_layout, n).ok,
    decreases n - i,
{
    if i < n {
        lemma_walk_failed(children, has_layout, i + 1, n);
    }
}

/// Some open layout of `s` is `t`.
pub open spec fn stack_has(s: Seq<(int, int)>, t: int) -> bool {
    exists|k: int| 0 <= k < s.len() && #[trigger] s[k].0 == t
}

/// The open layouts are in the order they were opened, all of them before
/// the next one, and none has a negative number of children left.
pub open spec fn walk_wf(w: LayoutWalk) -> bool {
    &&& w.next >= 1
    &&& forall|a: int, b: int| 0 <= a < b < w.stack.len() ==> (#[trigger] w.stack[a]).0 < (#[trigger] w.stack[b]).0
    &&& forall|a: int| 0 <= a < w.stack.len() ==> 0 <= (#[trigger] w.stack[a]).0 < w.next && w.stack[a].1 >= 0
}

/// Closing the finished layouts keeps a prefix of the stack, whose top, if
/// any, has children left.
pub proof fn lemma_pop_done(s: Seq<(int, int)>)
    ensures
        pop_done(s).len() <= s.len(),
        pop_done(s) == s.take(pop_done(s).len() as int),
        pop_done(s).len() > 0 ==> pop_done(s).last().1 != 0,
        forall|k: int| pop_done(s).len() <= k < s.len() ==> (#[trigger] s[k]).1 == 0,
    decreases s.len(),
{
    if s.len() > 0 && s.last().1 == 0 {
        lemma_pop_done(s.drop_last());
        assert(s.drop_last().take(pop_done(s).len() as int) =~= s.take(pop_done(s).len() as int));
        assert forall|k: int| pop_done(s).len() <= k < s.len() implies (#[trigger] s[k]).1 == 0 by {
            if k < s.len() - 1 {
                assert(s.drop_last()[k] == s[k]);
            }
        }
    } else {
        assert(s.take(s.len() as int) =~= s);
    }
}

/// Every walk is well formed, and the next layout never goes back.
proof fn lemma_walk_wf(children: Seq<u32>, has_layout: Seq<bool>, i: int)
    requires
        0 <= i <= has_layout.len(),
    ensures
        walk_wf(walk(children, has_layout, i)),
        i > 0 ==> walk(children, has_layout, i - 1).next <= walk(children, has_layout, i).next,
        i > 0 ==> walk(children, has_layout, i).next <= walk(children, has_layout, i - 1).next + 1,
    decreases i,
{
    if i > 0 {
        lemma_walk_wf(children, has_layout, i - 1);
        let w = walk(children, has_layout, i - 1);
        lemma_pop_done(w.stack);
        let st = pop_done(w.stack);
        let w1 = walk(children, has_layout, i);
        if w.ok && st.len() > 0 {
            assert forall|a: int| 0 <= a < st.len() implies (#[trigger] st[a]) == w.stack[a] by {}
        }
    }
}

/// The next layout never goes back.
proof fn lemma_walk_next_mono(children: Seq<u32>, has_layout: Seq<bool>, i: int, j: int)
    requires
        0 <= i <= j <= has_layout.len(),
    ensures
        walk(children, has_layout, i).next <= walk(children, has_layout, j).next,
    decreases j - i,
{
    if i < j {
        lemma_walk_next_mono(children, has_layout, i, j - 1);
        lemma_walk_wf(children, has_layout, j);
    }
}

/// The open layouts after a step were open before it, or are the one it
/// opened.
proof fn lemma_step_has(children: Seq<u32>, w: LayoutWalk, has_layout: bool, t: int)
    requires
        stack_has(walk_step(children, w, has_layout).stack, t),
    ensures
        stack_has(w.stack, t) || t == w.next,
        w.ok && !stack_has(pop_done(w.stack), t) ==> t == w.next,
{
    lemma_pop_done(w.stack);
    let w1 = walk_step(children, w, has_layout);
    let k = choose|k: int| 0 <= k < w1.stack.len() && #[trigger] w1.stack[k].0 == t;
    let st = pop_done(w.stack);
    if w.ok && st.len() > 0 {
        if k < st.len() {
            assert(st[k] == w.stack[k]);
            assert(st[k].0 == t);
        }
    } else if w.ok {
        assert(w1.stack.len() == 0);
    }
}

/// A layout open at the end of the walk was open at every earlier point, or
/// not opened yet.
proof fn lemma_walk_survive(children: Seq<u32>, has_layout: Seq<bool>, n: int, t: int, i: int)
    requires
        0 <= i <= n <= has_layout.len(),
        stack_has(walk(children, has_layout, n).stack, t),
    ensures
        stack_has(walk(children, has_layout, i).stack, t) || t >= walk(children, has_layout, i).next,
    decreases n - i,
{
    if i < n {
        lemma_walk_survive(children, has_layout, n, t, i + 1);
        lemma_walk_wf(children, has_layout, i + 1);
        let w = walk(children, has_layout, i);
        let w1 = walk(children, has_layout, i + 1);
        if stack_has(w1.stack, t) {
            lemma_step_has(children, w, has_layout[i], t);
        }
    }
}


/// The open layouts with one more child left for layout `t`.
pub open spec fn shift(s: Seq<(int, int)>, t: int) -> Seq<(int, int)> {
    s.map_values(|e: (int, int)| if e.0 == t { (e.0, e.1 + 1) } else { e })
}

/// The walk with one more child left for layout `t`.
pub open spec fn shift_walk(w: LayoutWalk, t: int) -> LayoutWalk {
    LayoutWalk { stack: shift(w.stack, t), ..w }
}

/// Closing the finished layouts does not see one more child for a layout
/// that stays open.
proof fn lemma_pop_done_shift(s: Seq<(int, int)>, t: int)
    requires
        forall|a: int, b: int| 0 <= a < b < s.len() ==> (#[trigger] s[a]).0 < (#[trigger] s[b]).0,
        forall|a: int| 0 <= a < s.len() ==> (#[trigger] s[a]).1 >= 0,
        stack_has(pop_done(s), t),
    ensures
        pop_done(shift(s, t)) == shift(pop_done(s), t),
    decreases s.len(),
{
    lemma_pop_done(s);
    if s.len() > 0 && s.last().1 == 0 {
        let k = choose|k: int| 0 <= k < pop_done(s).len() && #[trigger] pop_done(s)[k].0 == t;
        assert(pop_done(s)[k] == s[k]);
        assert(s.last().0 != t);
        assert(shift(s, t).drop_last() =~= shift(s.drop_last(), t));
        lemma_pop_done_shift(s.drop_last(), t);
    } else {
        assert(pop_done(s) == s);
    }
}

/// A stack without layout `t` is not changed by giving `t` more children.
proof fn lemma_shift_absent(s: Seq<(int, int)>, t: int)
    requires
        !stack_has(s, t),
    ensures
        shift(s, t) == s,
{
    assert forall|k: int| 0 <= k < s.len() implies #[trigger] shift(s, t)[k] == s[k] by {
        if s[k].0 == t {
            assert(stack_has(s, t));
        }
    }
    assert(shift(s, t) =~= s);
}

/// The walk only looks at the items it went through.
proof fn lemma_walk_prefix(children: Seq<u32>, has_layout: Seq<bool>, more: Seq<bool>, i: int)
    requires
        0 <= i <= has_layout.len(),
    ensures
        walk(children, has_layout + more, i) == walk(children, has_layout, i),
    decreases i,
{
    if i > 0 {
        lemma_walk_prefix(children, has_layout, more, i - 1);
        assert((has_layout + more)[i - 1] == has_layout[i - 1]);
    }
}

/// A walk that does not fail does not see a layout added at the end.
proof fn lemma_walk_more_layouts(children: Seq<u32>, x: u32, has_layout: Seq<bool>, n: int, i: int)
    requires
        0 <= i <= n <= has_layout.len(),
        walk(children, has_layout, n).ok,
        children.len() > 0,
    ensures
        walk(children.push(x), has_layout, i) == walk(children, has_layout, i),
    decreases i,
{
    if i == 0 {
        assert(children.push(x)[0] == children[0]);
        assert(walk_start(children.push(x)).stack =~= walk_start(children).stack);
    } else {
        lemma_walk_more_layouts(children, x, has_layout, n, i - 1);
        if !walk(children, has_layout, i).ok {
            lemma_walk_failed(children, has_layout, i, n);
        }
        lemma_walk_wf(children, has_layout, i - 1);
        let w = walk(children, has_layout, i - 1);
        if w.next < children.len() {
            assert(children.push(x)[w.next] == children[w.next]);
        }
    }
}

/// Giving one more child to a layout `t` that is open at the end of a walk
/// that does not fail only gives it one more child left all along.
proof fn lemma_walk_shift(children: Seq<u32>, has_layout: Seq<bool>, n: int, t: int, i: int)
    requires
        0 <= i <= n <= has_layout.len(),
        walk(children, has_layout, n).ok,
        0 <= t < children.len(),
        children[t] < u32::MAX,
        stack_has(walk(children, has_layout, n).stack, t),
    ensures
        walk(children.update(t, (children[t] + 1) as u32), has_layout, i) == shift_walk(walk(children, has_layout, i), t),
    decreases i,
{
    let c1 = children.update(t, (children[t] + 1) as u32);
    if i == 0 {
        assert(shift(walk_start(children).stack, t) =~= walk_start(c1).stack);
    } else {
        lemma_walk_shift(children, has_layout, n, t, i - 1);
        let w = walk(children, has_layout, i - 1);
        let w1 = walk(children, has_layout, i);
        lemma_walk_wf(children, has_layout, i - 1);
        lemma_walk_wf(children, has_layout, i);
        lemma_walk_survive(children, has_layout, n, t, i - 1);
        lemma_walk_survive(children, has_layout, n, t, i);
        if !w1.ok {
            lemma_walk_failed(children, has_layout, i, n);
        }
        lemma_pop_done(w.stack);
        let st = pop_done(w.stack);
        if stack_has(w.stack, t) {
            // `t` stays open through this step.
            let k = choose|k: int| 0 <= k < w.stack.len() && #[trigger] w.stack[k].0 == t;
            assert(t < w.next);
            assert(stack_has(w1.stack, t));
            lemma_step_has(children, w, has_layout[i - 1], t);
            lemma_pop_done_shift(w.stack, t);
            let sst = shift(st, t);
            assert(sst.len() == st.len());
            let top = st.last();
            let stop = sst.last();
            assert(stop == if top.0 == t { (top.0, top.1 + 1) } else { top });
            let placed = st.update(st.len() - 1, (top.0, top.1 - 1));
            let splaced = sst.update(sst.len() - 1, (stop.0, stop.1 - 1));
            assert(splaced =~= shift(placed, t));
            if has_layout[i - 1] && w.next < children.len() {
                assert(c1[w.next] == children[w.next]);
                assert(splaced.push((w.next, c1[w.next] as int)) =~= shift(placed.push((w.next, children[w.next] as int)), t));
            }
        } else {
            // `t` is not open yet: it may open now.
            assert(t >= w.next);
            lemma_shift_absent(w.stack, t);
            if w.ok && st.len() > 0 {
                let top = st.last();
                let placed = st.update(st.len() - 1, (top.0, top.1 - 1));
                assert forall|k: int| 0 <= k < placed.len() implies (#[trigger] placed[k]).0 < w.next by {
                    assert(st[k] == w.stack[k]);
                }
                assert(!stack_has(placed, t));
                lemma_shift_absent(placed, t);
                if has_layout[i - 1] && w.next < children.len() {
                    let e = (w.next, children[w.next] as int);
                    let e1 = (w.next, c1[w.next] as int);
                    assert(shift(placed.push(e), t) =~= placed.push(e1));
                }
            } else {
                lemma_shift_absent(w1.stack, t);
            }
        }
    }
}


/// The walk through all the items.
pub open spec fn full_walk(children: Seq<u32>, has_layout: Seq<bool>) -> LayoutWalk {
    walk(children, has_layout, has_layout.len() as int)
}

/// Closing the finished layouts stops at the innermost one with children
/// left.
proof fn lemma_pop_done_to(s: Seq<(int, int)>, d: int)
    requires
        1 <= d <= s.len(),
        s[d - 1].1 != 0,
        forall|k: int| d <= k < s.len() ==> (#[trigger] s[k]).1 == 0,
    ensures
        pop_done(s) == s.take(d),
    decreases s.len(),
{
    if s.len() > d {
        assert forall|k: int| d <= k < s.drop_last().len() implies (#[trigger] s.drop_last()[k]).1 == 0 by {
            assert(s.drop_last()[k] == s[k]);
        }
        lemma_pop_done_to(s.drop_last(), d);
        assert(s.drop_last().take(d) =~= s.take(d));
    } else {
        assert(s.take(d) =~= s);
    }
}

/// Adding an item to the layout `t`, open at depth `d` at the end of a walk
/// that does not fail and leaves no layout with children left: the walk
/// through the new items places the new item in `t` after going through the
/// same items as before, and opens its layout, if it holds one, as the
/// next layout; the layouts open below `t` are closed.
pub proof fn lemma_walk_add_item(children: Seq<u32>, has_layout: Seq<bool>, t: int, d: int, item_has_layout: bool)
    requires
        full_walk(children, has_layout).ok,
        full_walk(children, has_layout).next == children.len(),
        forall|k: int|
            0 <= k < full_walk(children, has_layout).stack.len() ==> (#[trigger] full_walk(
                children,
                has_layout,
            ).stack[k]).1 == 0,
        1 <= d <= full_walk(children, has_layout).stack.len(),
        full_walk(children, has_layout).stack[d - 1].0 == t,
        0 <= t < children.len(),
        children[t] < u32::MAX,
    ensures
        ({
            let w = full_walk(children, has_layout);
            let c1 = children.update(t, (children[t] + 1) as u32);
            let c2 = if item_has_layout { c1.push(0) } else { c1 };
            let w2 = full_walk(c2, has_layout.push(item_has_layout));
            &&& w2.ok
            &&& w2.parents == w.parents.push(t)
            &&& w2.next == c2.len()
            &&& w2.stack == if item_has_layout {
                w.stack.take(d).push((children.len() as int, 0))
            } else {
                w.stack.take(d)
            }
        }),
{
    let n = has_layout.len() as int;
    let w = full_walk(children, has_layout);
    let c1 = children.update(t, (children[t] + 1) as u32);
    let c2 = if item_has_layout { c1.push(0) } else { c1 };
    let h2 = has_layout.push(item_has_layout);
    lemma_walk_wf(children, has_layout, n);
    assert(w.stack[d - 1].0 == t);
    assert(stack_has(w.stack, t));
    lemma_walk_shift(children, has_layout, n, t, n);
    assert(walk(c1, has_layout, n) == shift_walk(w, t));
    if item_has_layout {
        lemma_walk_more_layouts(c1, 0, has_layout, n, n);
    }
    assert(walk(c2, has_layout, n) == shift_walk(w, t));
    assert(has_layout + seq![item_has_layout] =~= h2);
    lemma_walk_prefix(c2, has_layout, seq![item_has_layout], n);
    assert(walk(c2, h2, n) == shift_walk(w, t));
    assert(h2[n] == item_has_layout);
    assert(full_walk(c2, h2) == walk_step(c2, shift_walk(w, t), item_has_layout));
    // Giving `t` one more child: only its entry changes.
    let s1 = shift(w.stack, t);
    assert forall|k: int| 0 <= k < w.stack.len() implies #[trigger] s1[k] == (if k == d - 1 {
        (t, 1int)
    } else {
        w.stack[k]
    }) by {
        if k < d - 1 {
            assert(w.stack[k].0 < w.stack[d - 1].0);
        } else if k > d - 1 {
            assert(w.stack[d - 1].0 < w.stack[k].0);
        }
    }
    lemma_pop_done_to(s1, d);
    let st = s1.take(d);
    assert(st.last() == (t, 1int));
    let placed = st.update(d - 1, (t, 0int));
    assert(placed =~= w.stack.take(d));
    if item_has_layout {
        assert(c2[children.len() as int] == 0);
    }
}


/// The layout of each item of the gui: for each item that is placed, in
/// order, the index of the layout that places it. `None` when an item holds
/// a layout that does not exist, or when a layout has more children than
/// there are items left.
pub fn layout_plan(children: &[u32], has_layout: &[bool]) -> (r: Option<Vec<usize>>)
    ensures
        match layout_plan_of(children@, has_layout@) {
            Some(p) => r matches Some(v) && parents_view(v@) == p,
            None => r is None,
        },
{
    let mut stack: Vec<(usize, u32)> = Vec::new();
    if children.len() > 0 {
        stack.push((0, children[0]));
    }
    let mut next: usize = 1;
    let mut parents: Vec<usize> = Vec::new();
    proof {
        assert(stack_view(stack@) =~= walk_start(children@).stack);
        assert(parents_view(parents@) =~= Seq::<int>::empty());
    }
    let mut i: usize = 0;
    while i < has_layout.len()
        invariant
            i <= has_layout@.len(),
            walk(children@, has_layout@, i as int).ok,
            stack_view(stack@) == walk(children@, has_layout@, i as int).stack,
            next as int == walk(children@, has_layout@, i as int).next,
            parents_view(parents@) == walk(children@, has_layout@, i as int).parents,
            parents@.len() <= i,
            next <= i + 1,
        decreases has_layout@.len() - i,
    {
        let ghost w = walk(children@, has_layout@, i as int);
        // Close the layouts that placed all their children.
        while stack.len() > 0 && stack[stack.len() - 1].1 == 0
            invariant
                pop_done(stack_view(stack@)) == pop_done(w.stack),
            decreases stack@.len(),
        {
            proof {
                assert(stack_view(stack@).drop_last() =~= stack_view(stack@.drop_last()));
            }
            stack.pop();
        }
        proof {
            assert(pop_done(stack_view(stack@)) == stack_view(stack@));
        }
        if stack.len() > 0 {
            let last = stack.len() - 1;
            let (layout, remaining) = stack[last];
            stack.set(last, (layout, remaining - 1));
            parents.push(layout);
            proof {
                assert(parents_view(parents@) =~= w.parents.push(layout as int));
            }
            if has_layout[i] {
                if next < children.len() {
                    stack.push((next, children[next]));
                    next = next + 1;
                } else {
                    proof {
                        lemma_walk_failed(children@, has_layout@, i + 1, has_layout@.len() as int);
                    }
                    return None;
                }
            }
        }
        proof {
            let w1 = walk(children@, has_layout@, i + 1);
            assert(w1 == walk_step(children@, w, has_layout@[i as int]));
            assert(stack_view(stack@) =~= w1.stack);
        }
        i = i + 1;
    }
    let ghost w = walk(children@, has_layout@, i as int);
    while stack.len() > 0 && stack[stack.len() - 1].1 == 0
        invariant
            pop_done(stack_view(stack@)) == pop_done(w.stack),
        decreases stack@.len(),
    {
        proof {
            assert(stack_view(stack@).drop_last() =~= stack_view(stack@.drop_last()));
        }
        stack.pop();
    }
    proof {
        assert(pop_done(stack_view(stack@)) == stack_view(stack@));
    }
    if stack.len() > 0 {
        None
    } else {
        Some(parents)
    }
}

} // verus!
