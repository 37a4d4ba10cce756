//! The call tree under a function: every chain of direct calls from it,
//! cut where a call would re-enter a function already on the chain.

use vstd::prelude::*;
use crate::analysis::calls_view;
use crate::tables::contains_index;

verus! {

/// One line of a call tree.
#[derive(PartialEq, Eq, Structural, Debug, Clone, Copy)]
pub struct CallTreeLine {
    /// Number of ancestors of the callee on its chain, the root included.
    pub depth: usize,
    /// The callee.
    pub index: usize,
    /// The callee is already on the chain: the tree stops here.
    pub cyclic: bool,
}

/// The functions `caller` calls directly: those of the first entry for it,
/// or none.
pub open spec fn callees_of(calls: Seq<(usize, Seq<usize>)>, caller: usize) -> Seq<usize>
    decreases calls.len(),
{
    if calls.len() == 0 {
        Seq::empty()
    } else if calls[0].0 == caller {
        calls[0].1
    } else {
        callees_of(calls.drop_first(), caller)
    }
}

/// `x` has an entry in the call graph.
pub open spec fn is_caller(calls: Seq<(usize, Seq<usize>)>, x: usize) -> bool {
    exists|i: int| 0 <= i < calls.len() && calls[i].0 == x
}

/// The lines for `kids`, the callees of the last function on `chain`, each
/// followed by its own subtree. A callee already on the chain is a cyclic
/// line with nothing below it. `fuel` bounds the depth; it is never reached
/// from `call_tree`, since a chain never repeats a caller.
pub open spec fn tree_lines(calls: Seq<(usize, Seq<usize>)>, chain: Seq<usize>, kids: Seq<usize>, fuel: nat) -> Seq<CallTreeLine>
    decreases fuel, kids.len(),
{
    if kids.len() == 0 {
        Seq::empty()
    } else {
        let prev = tree_lines(calls, chain, kids.drop_last(), fuel);
        let c = kids.last();
        if chain.contains(c) {
            prev.push(CallTreeLine { depth: chain.len() as usize, index: c, cyclic: true })
        } else {
            let line = CallTreeLine { depth: chain.len() as usize, index: c, cyclic: false };
            if fuel > 0 && is_caller(calls, c) {
                prev.push(line) + tree_lines(calls, chain.push(c), callees_of(calls, c), (fuel - 1) as nat)
            } else {
                prev.push(line)
            }
        }
    }
}

/// The call tree under `root`.
pub open spec fn call_tree_of(calls: Seq<(usize, Seq<usize>)>, root: usize) -> Seq<CallTreeLine> {
    tree_lines(calls, seq![root], callees_of(calls, root), (calls.len() - 1) as nat)
}

fn lookup_callees(calls: &Vec<(usize, Vec<usize>)>, caller: usize) -> (r: Option<&Vec<usize>>)
    ensures
        r matches Some(v) ==> v@ == callees_of(calls_view(calls@), caller) && is_caller(calls_view(calls@), caller),
        r is None ==> !is_caller(calls_view(calls@), caller) && callees_of(calls_view(calls@), caller) == Seq::<usize>::empty(),
{
    let ghost cv = calls_view(calls@);
    let mut i: usize = 0;
    assert(cv.subrange(0, cv.len() as int) =~= cv);
    while i < calls.len()
        invariant
            0 <= i <= calls.len(),
            cv == calls_view(calls@),
            forall|j: int| 0 <= j < i ==> #[trigger] cv[j].0 != caller,
            callees_of(cv, caller) == callees_of(cv.subrange(i as int, cv.len() as int), caller),
        decreases calls.len() - i,
    {
        let ghost rest = cv.subrange(i as int, cv.len() as int);
        if calls[i].0 == caller {
            assert(rest[0] == cv[i as int]);
            return Some(&calls[i].1);
        }
        assert(rest.drop_first() =~= cv.subrange(i + 1, cv.len() as int));
        i = i + 1;
    }
    assert(cv.subrange(i as int, cv.len() as int) =~= Seq::<(usize, Seq<usize>)>::empty());
    None
}

proof fn lemma_chain_bound(calls: Seq<(usize, Seq<usize>)>, chain: Seq<usize>)
    requires
        chain.no_duplicates(),
        forall|j: int| 0 <= j < chain.len() ==> is_caller(calls, #[trigger] chain[j]),
    ensures
        chain.len() <= calls.len(),
{
    let keys = calls.map_values(|e: (usize, Seq<usize>)| e.0);
    chain.unique_seq_to_set();
    keys.lemma_cardinality_of_set();
    assert(chain.to_set().subset_of(keys.to_set())) by {
        assert forall|x: usize| chain.to_set().contains(x) implies keys.to_set().contains(x) by {
            let j = choose|j: int| 0 <= j < chain.len() && chain[j] == x;
            assert(is_caller(calls, chain[j]));
            let i = choose|i: int| 0 <= i < calls.len() && calls[i].0 == x;
            assert(keys[i] == x);
        }
    }
    vstd::set_lib::lemma_len_subset(chain.to_set(), keys.to_set());
}

/// Appends the lines for the callees of the last function on `chain`.
fn called_list(calls: &Vec<(usize, Vec<usize>)>, chain: &mut Vec<usize>, out: &mut Vec<CallTreeLine>)
    requires
        old(chain)@.len() > 0,
        old(chain)@.no_duplicates(),
        forall|j: int| 0 <= j < old(chain)@.len() ==> is_caller(calls_view(calls@), #[trigger] old(chain)@[j]),
    ensures
        final(chain)@ == old(chain)@,
        final(out)@ == old(out)@ + tree_lines(
            calls_view(calls@),
            old(chain)@,
            callees_of(calls_view(calls@), old(chain)@.last()),
            (calls@.len() - old(chain)@.len()) as nat,
        ),
    decreases calls@.len() - old(chain)@.len(),
{
    let ghost cv = calls_view(calls@);
    let ghost ch = chain@;
    proof {
        lemma_chain_bound(cv, ch);
    }
    let ghost fuel = (calls@.len() - ch.len()) as nat;
    let last = chain[chain.len() - 1];
    let kids = match lookup_callees(calls, last) {
        Some(k) => k,
        None => {
            assert(tree_lines(cv, ch, Seq::<usize>::empty(), fuel) =~= Seq::<CallTreeLine>::empty());
            assert(out@ + Seq::<CallTreeLine>::empty() =~= out@);
            return;
        },
    };
    let ghost out0 = out@;
    let level = chain.len();
    let mut k: usize = 0;
    assert(kids@.take(0) =~= Seq::<usize>::empty());
    assert(out0 + tree_lines(cv, ch, kids@.take(0), fuel) =~= out0);
    while k < kids.len()
        invariant
            0 <= k <= kids.len(),
            chain@ == ch,
            old(chain)@ == ch,
            cv == calls_view(calls@),
            level == ch.len(),
            ch.len() > 0,
            ch.no_duplicates(),
            forall|j: int| 0 <= j < ch.len() ==> is_caller(cv, #[trigger] ch[j]),
            ch.len() <= calls@.len(),
            fuel == (calls@.len() - ch.len()) as nat,
            out@ == out0 + tree_lines(cv, ch, kids@.take(k as int), fuel),
        decreases kids.len() - k,
    {
        let called = kids[k];
        assert(kids@.take(k + 1).drop_last() =~= kids@.take(k as int));
        assert(kids@.take(k + 1).last() == called);
        let ghost prev = tree_lines(cv, ch, kids@.take(k as int), fuel);
        if contains_index(chain, called) {
            out.push(CallTreeLine { depth: level, index: called, cyclic: true });
            assert(out@ =~= out0 + prev.push(CallTreeLine { depth: level, index: called, cyclic: true }));
        } else {
            let line = CallTreeLine { depth: level, index: called, cyclic: false };
            out.push(line);
            if lookup_callees(calls, called).is_some() {
                let ghost mid = out@;
                chain.push(called);
                proof {
                    assert(chain@.drop_last() =~= ch);
                    assert forall|j: int| 0 <= j < chain@.len() implies is_caller(cv, #[trigger] chain@[j]) by {
                        if j < ch.len() {
                            assert(chain@[j] == ch[j]);
                        }
                    }
                    assert(chain@.no_duplicates()) by {
                        assert forall|a: int, b: int| 0 <= a < b < chain@.len() implies chain@[a] != chain@[b] by {
                            if b == ch.len() {
                                assert(chain@[a] == ch[a]);
                            } else {
                                assert(chain@[a] == ch[a]);
                                assert(chain@[b] == ch[b]);
                            }
                        }
                    }
                    lemma_chain_bound(cv, chain@);
                    assert(cv.len() == calls@.len());
                }
                called_list(calls, chain, out);
                chain.pop();
                assert(chain@ =~= ch);
                assert(out@ =~= out0 + (prev.push(line) + tree_lines(cv, ch.push(called), callees_of(cv, called), (fuel - 1) as nat)));
            } else {
                assert(out@ =~= out0 + prev.push(line));
            }
        }
        k = k + 1;
    }
    assert(kids@.take(kids.len() as int) =~= kids@);
}

/// The call tree under `root`; empty where `root` calls nothing.
pub fn call_tree(calls: &Vec<(usize, Vec<usize>)>, root: usize) -> (r: Vec<CallTreeLine>)
    ensures
        r@ == call_tree_of(calls_view(calls@), root),
{
    if lookup_callees(calls, root).is_none() {
        let ghost cv = calls_view(calls@);
        assert(call_tree_of(cv, root) =~= Seq::<CallTreeLine>::empty());
        return Vec::new();
    }
    let mut chain: Vec<usize> = Vec::new();
    chain.push(root);
    let mut out: Vec<CallTreeLine> = Vec::new();
    assert(chain@ =~= seq![root]);
    assert(chain@[0] == root);
    called_list(calls, &mut chain, &mut out);
    assert(out@ =~= call_tree_of(calls_view(calls@), root));
    out
}

/// Each function on `p` calls the next one directly.
pub open spec fn is_call_path(calls: Seq<(usize, Seq<usize>)>, p: Seq<usize>) -> bool {
    forall|k: int| 0 <= k < p.len() - 1 ==> #[trigger] callees_of(calls, p[k]).contains(p[k + 1])
}

/// `p` is the chain of ancestors of line `l`: a call path as long as the
/// line is deep, whose last function calls the line's function, and the
/// line is cyclic exactly when its function is already on the path.
pub open spec fn is_ancestry(calls: Seq<(usize, Seq<usize>)>, l: CallTreeLine, p: Seq<usize>) -> bool {
    &&& p.len() == l.depth
    &&& p.len() > 0
    &&& is_call_path(calls, p)
    &&& callees_of(calls, p.last()).contains(l.index)
    &&& (l.cyclic <==> p.contains(l.index))
}

/// Line `l` has an ancestry that extends `chain`.
pub open spec fn has_ancestry(calls: Seq<(usize, Seq<usize>)>, l: CallTreeLine, chain: Seq<usize>) -> bool {
    exists|p: Seq<usize>| chain.is_prefix_of(p) && #[trigger] is_ancestry(calls, l, p)
}

proof fn lemma_tree_lines_ancestry(calls: Seq<(usize, Seq<usize>)>, chain: Seq<usize>, kids: Seq<usize>, fuel: nat)
    requires
        chain.len() > 0,
        chain.len() + fuel <= usize::MAX,
        is_call_path(calls, chain),
        kids.is_prefix_of(callees_of(calls, chain.last())),
    ensures
        forall|i: int| 0 <= i < tree_lines(calls, chain, kids, fuel).len() ==> #[trigger] has_ancestry(
            calls,
            tree_lines(calls, chain, kids, fuel)[i],
            chain,
        ),
    decreases fuel, kids.len(),
{
    let lines = tree_lines(calls, chain, kids, fuel);
    if kids.len() > 0 {
        let prev = tree_lines(calls, chain, kids.drop_last(), fuel);
        let c = kids.last();
        assert(kids.drop_last().is_prefix_of(callees_of(calls, chain.last()))) by {
            assert forall|j: int| 0 <= j < kids.drop_last().len() implies kids.drop_last()[j] == callees_of(calls, chain.last())[j] by {
                assert(kids.drop_last()[j] == kids[j]);
            }
        }
        lemma_tree_lines_ancestry(calls, chain, kids.drop_last(), fuel);
        assert(callees_of(calls, chain.last()).contains(c)) by {
            assert(callees_of(calls, chain.last())[kids.len() - 1] == c);
        }
        assert(chain.is_prefix_of(chain));
        let line = CallTreeLine { depth: chain.len() as usize, index: c, cyclic: chain.contains(c) };
        assert(is_ancestry(calls, line, chain));
        if !chain.contains(c) && fuel > 0 && is_caller(calls, c) {
            let sub_chain = chain.push(c);
            let sub = tree_lines(calls, sub_chain, callees_of(calls, c), (fuel - 1) as nat);
            assert(is_call_path(calls, sub_chain)) by {
                assert forall|k: int| 0 <= k < sub_chain.len() - 1 implies #[trigger] callees_of(calls, sub_chain[k]).contains(sub_chain[k + 1]) by {
                    if k < chain.len() - 1 {
                        assert(sub_chain[k] == chain[k] && sub_chain[k + 1] == chain[k + 1]);
                    } else {
                        assert(sub_chain[k] == chain.last() && sub_chain[k + 1] == c);
                    }
                }
            }
            assert(sub_chain.last() == c);
            assert(callees_of(calls, c).is_prefix_of(callees_of(calls, sub_chain.last())));
            lemma_tree_lines_ancestry(calls, sub_chain, callees_of(calls, c), (fuel - 1) as nat);
            assert(lines == prev.push(line) + sub);
            assert forall|i: int| 0 <= i < lines.len() implies #[trigger] has_ancestry(calls, lines[i], chain) by {
                if i < prev.len() {
                    assert(lines[i] == prev[i]);
                    assert(has_ancestry(calls, prev[i], chain));
                } else if i == prev.len() {
                    assert(lines[i] == line);
                } else {
                    assert(lines[i] == sub[i - prev.len() - 1]);
                    assert(has_ancestry(calls, sub[i - prev.len() - 1], sub_chain));
                    let p = choose|p: Seq<usize>| sub_chain.is_prefix_of(p) && #[trigger] is_ancestry(calls, sub[i - prev.len() - 1], p);
                    assert(chain.is_prefix_of(p)) by {
                        assert forall|j: int| 0 <= j < chain.len() implies chain[j] == p[j] by {
                            assert(sub_chain[j] == chain[j]);
                        }
                    }
                }
            }
        } else {
            assert(lines == prev.push(line));
            assert forall|i: int| 0 <= i < lines.len() implies #[trigger] has_ancestry(calls, lines[i], chain) by {
                if i < prev.len() {
                    assert(lines[i] == prev[i]);
                    assert(has_ancestry(calls, prev[i], chain));
                } else {
                    assert(lines[i] == line);
                }
            }
        }
    }
}

/// Cycle-safe rendering: every line of the call tree under `root` sits at
/// the end of a chain of direct calls from `root` as long as the line is
/// deep, and is marked cyclic exactly when its function is already on that
/// chain. (The rendering itself terminates on every graph, cyclic or not.)
pub proof fn lemma_call_tree_cycles(calls: Seq<(usize, Seq<usize>)>, root: usize)
    requires
        calls.len() <= usize::MAX,
    ensures
        forall|i: int| 0 <= i < call_tree_of(calls, root).len() ==> #[trigger] has_ancestry(
            calls,
            call_tree_of(calls, root)[i],
            seq![root],
        ),
{
    let chain = seq![root];
    assert(is_call_path(calls, chain));
    assert(callees_of(calls, root).is_prefix_of(callees_of(calls, chain.last())));
    if calls.len() > 0 {
        lemma_tree_lines_ancestry(calls, chain, callees_of(calls, root), (calls.len() - 1) as nat);
    } else {
        assert(callees_of(calls, root) == Seq::<usize>::empty());
        assert(call_tree_of(calls, root) =~= Seq::<CallTreeLine>::empty());
    }
}

} // verus!
