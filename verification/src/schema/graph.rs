//! Closure and acyclicity of the type reference graph of a schema.

use vstd::prelude::*;
use vstd::set_lib::{lemma_int_range, lemma_len_subset, set_int_range};

use crate::schema::error::SchemaError;
use crate::schema::ids::TypeId;
use crate::schema::model::{kind_references, TypeDef};
use crate::sort::{find_key, has_key, strictly_sorted_by_key, Keyed};

verus! {

/// The type at position `child` is referenced by the type at position `parent`.
pub open spec fn references_type(types: Seq<TypeDef>, parent: int, child: int) -> bool {
    &&& 0 <= parent < types.len()
    &&& 0 <= child < types.len()
    &&& kind_references(types[parent].spec_kind()).contains(types[child].spec_id().spec_get())
}

/// Every type reference resolves to a declared type.
pub open spec fn is_closed(types: Seq<TypeDef>) -> bool {
    forall|i: int, r: u32|
        0 <= i < types.len() && #[trigger] kind_references(types[i].spec_kind()).contains(r)
            ==> has_key(types, r as int)
}

/// Step `k` of a path follows a reference.
pub open spec fn path_step(types: Seq<TypeDef>, path: Seq<int>, k: int) -> bool {
    references_type(types, path[k], path[k + 1])
}

/// A path of positions that follows references.
pub open spec fn is_reference_path(types: Seq<TypeDef>, path: Seq<int>) -> bool {
    &&& path.len() >= 1
    &&& forall|k: int| 0 <= k < path.len() ==> 0 <= #[trigger] path[k] < types.len()
    &&& forall|k: int| 0 <= k < path.len() - 1 ==> #[trigger] path_step(types, path, k)
}

/// A path of at least one reference that returns to where it started.
pub open spec fn is_reference_cycle(types: Seq<TypeDef>, path: Seq<int>) -> bool {
    &&& is_reference_path(types, path)
    &&& path.len() >= 2
    &&& path[0] == path.last()
}

/// No chain of references leads from a type back to itself.
pub open spec fn is_acyclic(types: Seq<TypeDef>) -> bool {
    forall|path: Seq<int>| !#[trigger] is_reference_cycle(types, path)
}

/// The type with this identifier lies on a reference cycle.
pub open spec fn lies_on_cycle(types: Seq<TypeDef>, id: u32) -> bool {
    exists|path: Seq<int>| #[trigger] is_reference_cycle(types, path) && types[path[0]].spec_id().spec_get() == id
}

/// Some type refers to this identifier and no type declares it.
pub open spec fn dangles(types: Seq<TypeDef>, id: u32) -> bool {
    &&& exists|i: int| 0 <= i < types.len() && #[trigger] kind_references(types[i].spec_kind()).contains(id)
    &&& !has_key(types, id as int)
}

/// The graph check only ever refuses with a witness it has found.
pub open spec fn graph_error(types: Seq<TypeDef>, error: SchemaError) -> bool {
    match error {
        SchemaError::RecursiveTypeCycle(id) => lies_on_cycle(types, id.spec_get()),
        SchemaError::UnknownTypeReference(id) => dangles(types, id.spec_get()),
        _ => false,
    }
}

/// Some finished type before position `bound` carries the identifier.
spec fn finished_before(types: Seq<TypeDef>, done: Seq<int>, id: u32, bound: int) -> bool {
    exists|m: int| 0 <= m < bound && types[done[m]].spec_id().spec_get() == id
}

/// Every reference of the type finished at position `k` resolves to a type
/// that finished earlier.
spec fn finished_in_order(types: Seq<TypeDef>, done: Seq<int>, k: int) -> bool {
    forall|r: u32|
        #[trigger] kind_references(types[done[k]].spec_kind()).contains(r) ==> finished_before(
            types,
            done,
            r,
            k,
        )
}

/// Search state: unvisited (0), on the current path (1) or finished (2).
spec fn search_state(types: Seq<TypeDef>, states: Seq<u8>, stack: Seq<int>, done: Seq<int>) -> bool {
    &&& states.len() == types.len()
    &&& forall|i: int| 0 <= i < states.len() ==> #[trigger] states[i] <= 2
    &&& forall|i: int| 0 <= i < states.len() ==> ((#[trigger] states[i] == 1) <==> stack.contains(i))
    &&& forall|i: int| 0 <= i < states.len() ==> ((#[trigger] states[i] == 2) <==> done.contains(i))
    &&& stack.no_duplicates()
    &&& forall|k: int| 0 <= k < stack.len() ==> 0 <= #[trigger] stack[k] < types.len()
    &&& forall|k: int| 0 <= k < stack.len() - 1 ==> #[trigger] path_step(types, stack, k)
    &&& done.no_duplicates()
    &&& forall|k: int| 0 <= k < done.len() ==> 0 <= #[trigger] done[k] < types.len()
    &&& forall|k: int| 0 <= k < done.len() ==> #[trigger] finished_in_order(types, done, k)
}

/// `longer` keeps every entry of `shorter` in place.
spec fn extends(shorter: Seq<int>, longer: Seq<int>) -> bool {
    &&& shorter.len() <= longer.len()
    &&& forall|k: int| 0 <= k < shorter.len() ==> #[trigger] longer[k] == shorter[k]
}

/// Distinct positions below `n` number at most `n`.
proof fn lemma_distinct_positions(s: Seq<int>, n: int)
    requires
        s.no_duplicates(),
        n >= 0,
        forall|k: int| 0 <= k < s.len() ==> 0 <= #[trigger] s[k] < n,
    ensures
        s.len() <= n,
{
    s.unique_seq_to_set();
    lemma_int_range(0, n);
    assert(s.to_set().subset_of(set_int_range(0, n)));
    lemma_len_subset(s.to_set(), set_int_range(0, n));
}

/// Positions of distinct types carry distinct identifiers.
proof fn lemma_identifier_position(types: Seq<TypeDef>, i: int, j: int)
    requires
        strictly_sorted_by_key(types),
        0 <= i < types.len(),
        0 <= j < types.len(),
        types[i].spec_id().spec_get() == types[j].spec_id().spec_get(),
    ensures
        i == j,
{
    if i < j {
        assert(types[i].spec_key() < types[j].spec_key());
    } else if j < i {
        assert(types[j].spec_key() < types[i].spec_key());
    }
}

/// Along a reference path through finished types, finishing positions strictly
/// decrease.
proof fn lemma_path_descends(types: Seq<TypeDef>, done: Seq<int>, path: Seq<int>, j: int)
    requires
        strictly_sorted_by_key(types),
        done.no_duplicates(),
        forall|k: int| 0 <= k < done.len() ==> 0 <= #[trigger] done[k] < types.len(),
        forall|k: int| 0 <= k < done.len() ==> #[trigger] finished_in_order(types, done, k),
        forall|i: int| 0 <= i < types.len() ==> #[trigger] done.contains(i),
        is_reference_path(types, path),
        1 <= j < path.len(),
    ensures
        done.index_of(path[j]) < done.index_of(path[0]),
    decreases j,
{
    if j > 1 {
        lemma_path_descends(types, done, path, j - 1);
    }
    let u = path[j - 1];
    let v = path[j];
    assert(path_step(types, path, j - 1));
    assert(done.contains(u));
    assert(done.contains(v));
    let k = done.index_of(u);
    assert(finished_in_order(types, done, k));
    let r = types[v].spec_id().spec_get();
    assert(kind_references(types[done[k]].spec_kind()).contains(r));
    let m = choose|m: int| 0 <= m < k && types[done[m]].spec_id().spec_get() == r;
    lemma_identifier_position(types, done[m], v);
    assert(done.index_of(v) == m) by {
        assert(done[done.index_of(v)] == v);
    }
}

/// Finishing every type without meeting a path back into the current search
/// shows that the reference graph is closed and acyclic.
proof fn lemma_finished_graph(types: Seq<TypeDef>, states: Seq<u8>, done: Seq<int>)
    requires
        strictly_sorted_by_key(types),
        search_state(types, states, Seq::empty(), done),
        forall|i: int| 0 <= i < types.len() ==> #[trigger] states[i] == 2,
    ensures
        is_closed(types),
        is_acyclic(types),
{
    assert forall|i: int| 0 <= i < types.len() implies #[trigger] done.contains(i) by {
        assert(states[i] == 2);
    }
    assert forall|i: int, r: u32|
        0 <= i < types.len() && #[trigger] kind_references(types[i].spec_kind()).contains(
            r,
        ) implies has_key(types, r as int) by {
        assert(done.contains(i));
        let k = done.index_of(i);
        assert(finished_in_order(types, done, k));
        let m = choose|m: int| 0 <= m < k && types[done[m]].spec_id().spec_get() == r;
        assert(types[done[m]].spec_key() == r as int);
    }
    assert forall|path: Seq<int>| !#[trigger] is_reference_cycle(types, path) by {
        if is_reference_cycle(types, path) {
            lemma_path_descends(types, done, path, path.len() - 1);
        }
    }
}

/// Depth-first visit of one type: reports a reference to an undeclared type or
/// a reference back into the current path, and otherwise finishes the type
/// after everything it refers to.
fn visit_type(
    types: &Vec<TypeDef>,
    index: usize,
    states: &mut Vec<u8>,
    done: &mut Ghost<Seq<int>>,
    stack: Ghost<Seq<int>>,
) -> (result: Result<(), SchemaError>)
    requires
        strictly_sorted_by_key(types@),
        index < types@.len(),
        search_state(types@, old(states)@, stack@, old(done)@),
        stack@.len() == 0 || references_type(types@, stack@.last(), index as int),
    ensures
        result is Ok ==> search_state(types@, final(states)@, stack@, final(done)@)
            && final(states)@[index as int] == 2 && extends(old(done)@, final(done)@),
        result matches Err(e) ==> graph_error(types@, e),
    decreases types@.len() - stack@.len(),
{
    let state = states[index];
    if state == 1 {
        proof {
            let j = stack@.index_of(index as int);
            let path = stack@.subrange(j, stack@.len() as int).push(index as int);
            assert forall|k: int| 0 <= k < path.len() - 1 implies #[trigger] path_step(types@, path, k) by {
                if k < path.len() - 2 {
                    assert(path_step(types@, stack@, j + k));
                }
            }
            assert(is_reference_cycle(types@, path));
        }
        return Err(SchemaError::RecursiveTypeCycle(types[index].id()));
    }
    if state == 2 {
        return Ok(());
    }
    let ghost entry_done = done@;
    let ghost path = stack@.push(index as int);
    states.set(index, 1);
    proof {
        assert forall|k: int| 0 <= k < path.len() - 1 implies #[trigger] path_step(types@, path, k) by {
            if k < path.len() - 2 {
                assert(path_step(types@, stack@, k));
            }
        }
        assert forall|i: int| 0 <= i < states@.len() implies ((#[trigger] states@[i] == 1) <==> path.contains(i)) by {
            if i == index {
                assert(path[path.len() - 1] == i);
            } else {
                assert(states@[i] == old(states)@[i]);
                if path.contains(i) {
                    let k = path.index_of(i);
                    assert(stack@[k] == i);
                }
                if stack@.contains(i) {
                    let k = stack@.index_of(i);
                    assert(path[k] == i);
                }
            }
        }
        assert(search_state(types@, states@, path, done@));
        lemma_distinct_positions(path, types@.len() as int);
    }
    let references = types[index].kind().references();
    let mut position: usize = 0;
    while position < references.len()
        invariant
            strictly_sorted_by_key(types@),
            index < types@.len(),
            path == stack@.push(index as int),
            path.len() <= types@.len(),
            search_state(types@, states@, path, done@),
            extends(entry_done, done@),
            references@ == kind_references(types@[index as int].spec_kind()),
            position <= references@.len(),
            forall|q: int|
                0 <= q < position ==> finished_before(types@, done@, #[trigger] references@[q], done@.len() as int),
        decreases references@.len() - position,
    {
        let reference = references[position];
        match find_key(types, reference as u64) {
            None => {
                proof {
                    assert(kind_references(types@[index as int].spec_kind()).contains(reference));
                }
                return Err(SchemaError::UnknownTypeReference(TypeId::new(reference)));
            },
            Some(child) => {
                let ghost before = done@;
                proof {
                    assert(references_type(types@, index as int, child as int));
                }
                visit_type(types, child, states, done, Ghost(path))?;
                proof {
                    assert(done@.contains(child as int));
                    let m = done@.index_of(child as int);
                    assert(finished_before(types@, done@, reference, done@.len() as int));
                    assert forall|q: int| 0 <= q < position implies finished_before(types@, done@, #[trigger] references@[q], done@.len() as int) by {
                        assert(finished_before(types@, before, references@[q], before.len() as int));
                        let m = choose|m: int| 0 <= m < before.len() && types@[before[m]].spec_id().spec_get() == references@[q];
                        assert(done@[m] == before[m]);
                    }
                }
            },
        }
        position = position + 1;
    }
    let ghost finished = done@;
    proof {
        assert(path[path.len() - 1] == index);
        assert(states@[index as int] == 1);
        assert(!finished.contains(index as int));
    }
    let ghost searching = states@;
    states.set(index, 2);
    *done = Ghost(finished.push(index as int));
    proof {
        let d = done@;
        assert forall|k: int| 0 <= k < d.len() implies #[trigger] finished_in_order(types@, d, k) by {
            if k < finished.len() {
                assert(finished_in_order(types@, finished, k));
                assert forall|r: u32| #[trigger] kind_references(types@[d[k]].spec_kind()).contains(r) implies finished_before(types@, d, r, k) by {
                    let m = choose|m: int| 0 <= m < k && types@[finished[m]].spec_id().spec_get() == r;
                    assert(d[m] == finished[m]);
                }
            } else {
                assert forall|r: u32| #[trigger] kind_references(types@[d[k]].spec_kind()).contains(r) implies finished_before(types@, d, r, k) by {
                    let q = references@.index_of(r);
                    assert(finished_before(types@, finished, references@[q], finished.len() as int));
                    let m = choose|m: int| 0 <= m < finished.len() && types@[finished[m]].spec_id().spec_get() == r;
                    assert(d[m] == finished[m]);
                }
            }
        }
        assert forall|i: int| 0 <= i < states@.len() implies ((#[trigger] states@[i] == 1) <==> stack@.contains(i)) by {
            assert(i != index ==> states@[i] == searching[i]);
            if i == index {
                assert(path.no_duplicates());
                if stack@.contains(i) {
                    let k = stack@.index_of(i);
                    assert(path[k] == path[path.len() - 1]);
                }
            } else {
                if path.contains(i) {
                    let k = path.index_of(i);
                    assert(k < stack@.len());
                    assert(stack@[k] == i);
                }
                if stack@.contains(i) {
                    let k = stack@.index_of(i);
                    assert(path[k] == i);
                }
            }
        }
        assert forall|i: int| 0 <= i < states@.len() implies ((#[trigger] states@[i] == 2) <==> d.contains(i)) by {
            assert(i != index ==> states@[i] == searching[i]);
            if i != index {
                if d.contains(i) {
                    let k = d.index_of(i);
                    assert(finished[k] == i);
                }
                if finished.contains(i) {
                    let k = finished.index_of(i);
                    assert(d[k] == i);
                }
            } else {
                assert(d[d.len() - 1] == i);
            }
        }
        assert forall|k: int| 0 <= k < stack@.len() - 1 implies #[trigger] path_step(types@, stack@, k) by {
            assert(path_step(types@, path, k));
        }
        assert(stack@.no_duplicates()) by {
            assert forall|a: int, b: int| 0 <= a < b < stack@.len() implies stack@[a] != stack@[b] by {
                assert(path[a] != path[b]);
            }
        }
        assert forall|k: int| 0 <= k < entry_done.len() implies #[trigger] d[k] == entry_done[k] by {
            assert(finished[k] == entry_done[k]);
        }
    }
    Ok(())
}

/// Checks that every reference resolves and that no type reaches itself.
pub fn check_closed_and_acyclic(types: &Vec<TypeDef>) -> (result: Result<(), SchemaError>)
    requires
        strictly_sorted_by_key(types@),
    ensures
        result is Ok <==> is_closed(types@) && is_acyclic(types@),
        result matches Err(e) ==> graph_error(types@, e),
{
    let mut states: Vec<u8> = Vec::new();
    let mut fill: usize = 0;
    while fill < types.len()
        invariant
            fill <= types@.len(),
            states@.len() == fill,
            forall|i: int| 0 <= i < fill ==> #[trigger] states@[i] == 0,
        decreases types@.len() - fill,
    {
        states.push(0);
        fill = fill + 1;
    }
    let mut done: Ghost<Seq<int>> = Ghost(Seq::empty());
    let mut index: usize = 0;
    while index < types.len()
        invariant
            strictly_sorted_by_key(types@),
            index <= types@.len(),
            search_state(types@, states@, Seq::empty(), done@),
            forall|i: int| 0 <= i < index ==> #[trigger] states@[i] == 2,
        decreases types@.len() - index,
    {
        let ghost before = done@;
        let ghost before_states = states@;
        let result = visit_type(types, index, &mut states, &mut done, Ghost(Seq::empty()));
        match result {
            Ok(()) => {
                proof {
                    assert forall|i: int| 0 <= i <= index implies #[trigger] states@[i] == 2 by {
                        if i < index {
                            assert(before_states[i] == 2);
                            assert(before.contains(i));
                            let k = before.index_of(i);
                            assert(done@[k] == i);
                        }
                    }
                }
            },
            Err(error) => {
                proof {
                    lemma_graph_error_refutes(types@, error);
                }
                return Err(error);
            },
        }
        index = index + 1;
    }
    proof {
        lemma_finished_graph(types@, states@, done@);
    }
    Ok(())
}

/// A witness found by the search refutes closure or acyclicity.
proof fn lemma_graph_error_refutes(types: Seq<TypeDef>, error: SchemaError)
    requires
        graph_error(types, error),
    ensures
        !(is_closed(types) && is_acyclic(types)),
{
    match error {
        SchemaError::RecursiveTypeCycle(id) => {
            let path = choose|path: Seq<int>| #[trigger] is_reference_cycle(types, path) && types[path[0]].spec_id().spec_get() == id.spec_get();
            assert(is_reference_cycle(types, path));
        },
        SchemaError::UnknownTypeReference(id) => {
            let i = choose|i: int| 0 <= i < types.len() && #[trigger] kind_references(types[i].spec_kind()).contains(id.spec_get());
            assert(kind_references(types[i].spec_kind()).contains(id.spec_get()));
        },
        _ => {},
    }
}

} // verus!
