//! Which places of the board are joined by paths: every place gets the label
//! of its connected component.

use vstd::prelude::*;
use crate::board::Board;
use crate::errors::{invalid_location_text, LocationError, LocationErrorKind};
use crate::location::{Location, CELLS};

verus! {

/// Whether `path` is a walk over the board: it starts on the board, and each
/// of its places is linked to the next.
pub open spec fn is_path(board: &Board, path: Seq<Location>) -> bool {
    &&& path.len() > 0
    &&& path[0].on_board()
    &&& forall|i: int| 0 <= i < path.len() - 1 ==> board.linked(#[trigger] path[i], path[i + 1])
}

impl Board {
    /// Whether a path of linked tiles leads from `a` to `b`.
    pub open spec fn connected(&self, a: Location, b: Location) -> bool {
        exists|path: Seq<Location>| is_path(self, path) && path[0] == a && path.last() == b
    }

    /// Whether the place of rank `k` is the first of its component, when the
    /// board is read row by row: no path joins it to a place before it.
    pub open spec fn begins_component(&self, k: int) -> bool {
        forall|j: int| 0 <= j < k ==> !self.connected(#[trigger] Location::at(j), Location::at(k))
    }

    /// The number of components that begin before the place of rank `k`.
    pub open spec fn components_before(&self, k: int) -> int
        decreases k,
    {
        if k <= 0 {
            0
        } else {
            self.components_before(k - 1) + if self.begins_component(k - 1) {
                1int
            } else {
                0int
            }
        }
    }
}

/// Every place of the board is connected to itself.
pub proof fn lemma_connected_reflexive(board: &Board, a: Location)
    requires
        a.on_board(),
    ensures
        board.connected(a, a),
{
    let path = seq![a];
    assert(is_path(board, path) && path[0] == a && path.last() == a);
}

/// Both ends of a path lie on the board.
pub proof fn lemma_connected_on_board(board: &Board, a: Location, b: Location)
    requires
        board.connected(a, b),
    ensures
        a.on_board(),
        b.on_board(),
{
    let path = choose|path: Seq<Location>| is_path(board, path) && path[0] == a && path.last() == b;
    if path.len() > 1 {
        assert(board.linked(path[path.len() - 2], path[path.len() - 2 + 1]));
    }
}

/// A path can be walked one link further.
pub proof fn lemma_connected_step(board: &Board, a: Location, b: Location, c: Location)
    requires
        board.connected(a, b),
        board.linked(b, c),
    ensures
        board.connected(a, c),
{
    let path = choose|path: Seq<Location>| is_path(board, path) && path[0] == a && path.last() == b;
    let longer = path.push(c);
    assert(is_path(board, longer) && longer[0] == a && longer.last() == c);
}

/// Two paths that meet make one path.
pub proof fn lemma_connected_transitive(board: &Board, a: Location, b: Location, c: Location)
    requires
        board.connected(a, b),
        board.connected(b, c),
    ensures
        board.connected(a, c),
{
    let path = choose|path: Seq<Location>| is_path(board, path) && path[0] == b && path.last() == c;
    lemma_path_appended(board, a, path);
}

proof fn lemma_path_appended(board: &Board, a: Location, path: Seq<Location>)
    requires
        is_path(board, path),
        board.connected(a, path[0]),
    ensures
        board.connected(a, path.last()),
    decreases path.len(),
{
    if path.len() > 1 {
        let shorter = path.drop_last();
        lemma_path_appended(board, a, shorter);
        lemma_connected_step(board, a, shorter.last(), path.last());
    }
}

/// A path can be walked back.
pub proof fn lemma_connected_symmetric(board: &Board, a: Location, b: Location)
    requires
        board.connected(a, b),
    ensures
        board.connected(b, a),
{
    let path = choose|path: Seq<Location>| is_path(board, path) && path[0] == a && path.last() == b;
    lemma_path_reversed(board, path);
}

proof fn lemma_path_reversed(board: &Board, path: Seq<Location>)
    requires
        is_path(board, path),
    ensures
        board.connected(path.last(), path[0]),
    decreases path.len(),
{
    if path.len() == 1 {
        lemma_connected_reflexive(board, path[0]);
    } else {
        let shorter = path.drop_last();
        lemma_path_reversed(board, shorter);
        board.lemma_linked(shorter.last(), path.last());
        lemma_connected_reflexive(board, path.last());
        lemma_connected_step(board, path.last(), path.last(), shorter.last());
        lemma_connected_transitive(board, path.last(), shorter.last(), path[0]);
    }
}

/// A set of places that no link leaves holds every place to which a path
/// leads from one of its places.
pub proof fn lemma_closed_set(board: &Board, set: Set<Location>, a: Location, b: Location)
    requires
        set.contains(a),
        board.connected(a, b),
        forall|l: Location, m: Location| set.contains(l) && #[trigger] board.linked(l, m) ==> set.contains(m),
    ensures
        set.contains(b),
{
    let path = choose|path: Seq<Location>| is_path(board, path) && path[0] == a && path.last() == b;
    lemma_closed_set_path(board, set, path);
}

proof fn lemma_closed_set_path(board: &Board, set: Set<Location>, path: Seq<Location>)
    requires
        is_path(board, path),
        set.contains(path[0]),
        forall|l: Location, m: Location| set.contains(l) && #[trigger] board.linked(l, m) ==> set.contains(m),
    ensures
        set.contains(path.last()),
    decreases path.len(),
{
    if path.len() > 1 {
        let shorter = path.drop_last();
        lemma_closed_set_path(board, set, shorter);
    }
}

/// The labels of the places of a board: two places have the same label if and
/// only if a path joins them.
#[derive(Debug, Clone)]
pub struct BoardGraph {
    components: Vec<Option<i32>>,
}

impl View for BoardGraph {
    type V = Map<Location, i32>;

    /// The label of each place that has one.
    closed spec fn view(&self) -> Map<Location, i32> {
        Map::new(
            |l: Location| has_label(self.components@, l),
            |l: Location| self.components@[l.index()].unwrap(),
        )
    }
}

/// Whether `l` is a place with a label in `labels`, the labels row by row.
pub open spec fn has_label(labels: Seq<Option<i32>>, l: Location) -> bool {
    l.on_board() && l.index() < labels.len() && labels[l.index()] is Some
}

/// The number of places of `labels` without a label.
pub open spec fn unlabeled(labels: Seq<Option<i32>>) -> nat
    decreases labels.len(),
{
    if labels.len() == 0 {
        0
    } else {
        unlabeled(labels.drop_last()) + if labels.last() is None {
            1nat
        } else {
            0nat
        }
    }
}

proof fn lemma_unlabeled_update(labels: Seq<Option<i32>>, i: int, id: i32)
    requires
        0 <= i < labels.len(),
        labels[i] is None,
    ensures
        unlabeled(labels.update(i, Some(id))) + 1 == unlabeled(labels),
    decreases labels.len(),
{
    let updated = labels.update(i, Some(id));
    if i == labels.len() - 1 {
        assert(updated.drop_last() =~= labels.drop_last());
    } else {
        assert(updated.drop_last() =~= labels.drop_last().update(i, Some(id)));
        lemma_unlabeled_update(labels.drop_last(), i, id);
    }
}

/// No link leads from a labelled place to a place without a label.
spec fn closed(board: &Board, labels: Seq<Option<i32>>) -> bool {
    forall|l: Location, m: Location|
        has_label(labels, l) && #[trigger] board.linked(l, m) ==> has_label(labels, m)
}

/// Labelled places have the same label if and only if a path joins them.
spec fn faithful(board: &Board, labels: Seq<Option<i32>>) -> bool {
    forall|a: Location, b: Location|
        #![trigger has_label(labels, a), has_label(labels, b)]
        has_label(labels, a) && has_label(labels, b) ==> (labels[a.index()] == labels[b.index()]
            <==> board.connected(a, b))
}

/// The labels of `before` are still there.
spec fn kept(before: Seq<Option<i32>>, labels: Seq<Option<i32>>) -> bool {
    &&& labels.len() == before.len()
    &&& forall|k: int| 0 <= k < before.len() && before[k] is Some ==> #[trigger] labels[k] == before[k]
}

/// Every label that `before` did not have is `id`, at a place to which a path
/// leads from `start`.
spec fn grown(
    board: &Board,
    before: Seq<Option<i32>>,
    labels: Seq<Option<i32>>,
    start: Location,
    id: i32,
) -> bool {
    forall|l: Location|
        #[trigger] has_label(labels, l) && !has_label(before, l) ==> labels[l.index()] == Some(id)
            && board.connected(start, l)
}

/// Every link from a place with the label `id` leads to a place with that
/// label, but for the places that are still `pending`.
spec fn settled(board: &Board, labels: Seq<Option<i32>>, id: i32, pending: Seq<Location>) -> bool {
    forall|l: Location, m: Location|
        l.on_board() && labels[l.index()] == Some(id) && #[trigger] board.linked(l, m)
            ==> labels[m.index()] == Some(id) || pending.contains(l)
}

/// Gives the label `component_id` to `at` and to every place to which a path
/// leads from it.
fn dfs_util(board: &Board, at: &Location, labels: &mut Vec<Option<i32>>, component_id: i32)
    requires
        board.full(),
        at.on_board(),
        old(labels)@.len() == CELLS,
        !has_label(old(labels)@, *at),
        closed(board, old(labels)@),
        forall|k: int| 0 <= k < CELLS ==> old(labels)@[k] != Some(component_id),
    ensures
        kept(old(labels)@, final(labels)@),
        grown(board, old(labels)@, final(labels)@, *at, component_id),
        has_label(final(labels)@, *at),
        closed(board, final(labels)@),
{
    let ghost before = labels@;
    proof {
        lemma_unlabeled_update(labels@, at.index(), component_id);
        lemma_connected_reflexive(board, *at);
    }
    labels.set(at.rank(), Some(component_id));
    let mut stack: Vec<Location> = Vec::new();
    stack.push(*at);
    proof {
        assert(stack@[0] == *at);
        assert forall|l: Location, m: Location|
            l.on_board() && labels@[l.index()] == Some(component_id) && #[trigger] board.linked(
                l,
                m,
            ) implies labels@[m.index()] == Some(component_id) || stack@.contains(l) by {
            l.lemma_index(0);
            at.lemma_index(0);
        }
    }
    while stack.len() > 0
        invariant
            board.full(),
            at.on_board(),
            before.len() == CELLS,
            closed(board, before),
            forall|k: int| 0 <= k < CELLS ==> before[k] != Some(component_id),
            kept(before, labels@),
            grown(board, before, labels@, *at, component_id),
            has_label(labels@, *at),
            settled(board, labels@, component_id, stack@),
            forall|j: int|
                0 <= j < stack@.len() ==> (#[trigger] stack@[j]).on_board()
                    && labels@[stack@[j].index()] == Some(component_id),
        decreases unlabeled(labels@), stack@.len(),
    {
        let ghost stack_before = stack@;
        let here = stack.pop().unwrap();
        let neighbors = board.neighbors(&here).unwrap();
        let ghost rest = stack@;
        let ghost popped = labels@;
        proof {
            assert(rest.push(here) =~= stack_before);
            here.lemma_index(0);
            assert(has_label(labels@, here));
        }
        let mut n: usize = 0;
        while n < neighbors.len()
            invariant
                board.full(),
                at.on_board(),
                here.on_board(),
                before.len() == CELLS,
                closed(board, before),
                forall|k: int| 0 <= k < CELLS ==> before[k] != Some(component_id),
                kept(before, labels@),
                grown(board, before, labels@, *at, component_id),
                has_label(labels@, *at),
                labels@[here.index()] == Some(component_id),
                settled(board, labels@, component_id, stack@.push(here)),
                forall|j: int|
                    0 <= j < stack@.len() ==> (#[trigger] stack@[j]).on_board()
                        && labels@[stack@[j].index()] == Some(component_id),
                n <= neighbors@.len(),
                neighbors@ == board.neighbor_seq(here),
                forall|j: int|
                    0 <= j < n ==> labels@[(#[trigger] neighbors@[j]).index()] == Some(
                        component_id,
                    ),
                board.connected(*at, here),
                unlabeled(labels@) <= unlabeled(popped),
                unlabeled(labels@) < unlabeled(popped) || stack@.len() == rest.len(),
            decreases neighbors@.len() - n,
        {
            let neighbor_at = neighbors[n];
            proof {
                board.lemma_linked(here, neighbor_at);
                board.lemma_linked(neighbor_at, here);
                neighbor_at.lemma_index(0);
                here.lemma_index(0);
            }
            if labels[neighbor_at.rank()].is_none() {
                let ghost labels_before = labels@;
                let ghost stack_now = stack@;
                proof {
                    lemma_unlabeled_update(labels@, neighbor_at.index(), component_id);
                    lemma_connected_step(board, *at, here, neighbor_at);
                }
                labels.set(neighbor_at.rank(), Some(component_id));
                stack.push(neighbor_at);
                proof {
                    assert forall|l: Location, m: Location|
                        l.on_board() && labels@[l.index()] == Some(component_id)
                            && #[trigger] board.linked(l, m) implies labels@[m.index()] == Some(
                            component_id,
                        ) || stack@.push(here).contains(l) by {
                        l.lemma_index(0);
                        m.lemma_index(0);
                        board.lemma_linked(l, m);
                        if l == neighbor_at {
                            assert(stack@.push(here)[stack@.len() - 1] == l);
                        } else {
                            if !(labels_before[m.index()] == Some(component_id)) {
                                let j = choose|j: int|
                                    0 <= j < stack_now.push(here).len() && stack_now.push(here)[j]
                                        == l;
                                if j < stack_now.len() {
                                    assert(stack@.push(here)[j] == l);
                                } else {
                                    assert(stack@.push(here)[stack@.len() as int] == l);
                                }
                            }
                        }
                    }
                    assert forall|l: Location| #[trigger]
                        has_label(labels@, l) && !has_label(before, l) implies labels@[l.index()]
                        == Some(component_id) && board.connected(*at, l) by {
                        l.lemma_index(0);
                        if l != neighbor_at {
                            assert(has_label(labels_before, l));
                        }
                    }
                    assert forall|j: int| 0 <= j < n + 1 implies labels@[(
                    #[trigger] neighbors@[j]).index()] == Some(component_id) by {
                        neighbors@[j].lemma_index(0);
                    }
                }
            } else {
                proof {
                    // A label of another component would have reached `here` before.
                    if labels@[neighbor_at.index()] != Some(component_id) {
                        assert(has_label(labels@, neighbor_at));
                    }
                }
            }
            n = n + 1;
        }
        proof {
            assert forall|l: Location, m: Location|
                l.on_board() && labels@[l.index()] == Some(component_id) && #[trigger] board.linked(
                    l,
                    m,
                ) implies labels@[m.index()] == Some(component_id) || stack@.contains(l) by {
                if !(labels@[m.index()] == Some(component_id)) {
                    if l == here {
                        board.lemma_linked(here, m);
                    }
                }
            }
        }
    }
    proof {
        assert forall|l: Location, m: Location|
            has_label(labels@, l) && #[trigger] board.linked(l, m) implies has_label(
            labels@,
            m,
        ) by {
            board.lemma_linked(l, m);
        }
    }
}

impl BoardGraph {
    /// Whether the graph labels `board`: every place of the board has a label,
    /// and two places have the same label if and only if a path joins them.
    /// The components are numbered from zero in the order in which they
    /// begin, when the board is read row by row.
    pub open spec fn labels(&self, board: &Board) -> bool {
        &&& forall|l: Location| self@.dom().contains(l) <==> l.on_board()
        &&& forall|a: Location, b: Location|
            a.on_board() && b.on_board() ==> (self@[a] == self@[b] <==> #[trigger] board.connected(
                a,
                b,
            ))
        &&& forall|k: int|
            0 <= k < CELLS && #[trigger] board.begins_component(k) ==> self@[Location::at(k)]
                == board.components_before(k)
    }

    /// The graph in which no place has a label.
    pub fn empty() -> (graph: BoardGraph)
        ensures
            graph@ == Map::<Location, i32>::empty(),
    {
        BoardGraph { components: Vec::new() }
    }

    /// Whether a path joins `location1` and `location2`. A place without a
    /// label is refused, the first before the second.
    pub fn is_connected(&self, location1: &Location, location2: &Location) -> (r: Result<
        bool,
        LocationError,
    >)
        ensures
            self@.dom().contains(*location1) && self@.dom().contains(*location2) ==> r == Ok::<
                bool,
                LocationError,
            >(self@[*location1] == self@[*location2]),
            self@.dom().contains(*location1) && location1 == location2 ==> r == Ok::<
                bool,
                LocationError,
            >(true),
            !self@.dom().contains(*location1) ==> r is Err && r->Err_0.kind
                == LocationErrorKind::InvalidLocation && r->Err_0.text() == invalid_location_text(
                *location1,
            ),
            self@.dom().contains(*location1) && !self@.dom().contains(*location2) ==> r is Err
                && r->Err_0.kind == LocationErrorKind::InvalidLocation && r->Err_0.text()
                == invalid_location_text(*location2),
    {
        let component1 = match self.label(location1) {
            Some(component) => component,
            None => {
                return Err(LocationError::from(location1));
            },
        };
        let component2 = match self.label(location2) {
            Some(component) => component,
            None => {
                return Err(LocationError::from(location2));
            },
        };
        Ok(component1 == component2)
    }

    /// The label of `location`, if it has one.
    pub fn label(&self, location: &Location) -> (r: Option<i32>)
        ensures
            r is Some <==> self@.dom().contains(*location),
            r is Some ==> r->Some_0 == self@[*location],
    {
        if !location.is_on_board() {
            return None;
        }
        let i = location.rank();
        if i < self.components.len() {
            self.components[i]
        } else {
            None
        }
    }
}

impl From<&Board> for BoardGraph {
    /// The labels of `board`. Where the board is not full, no place gets a
    /// label.
    fn from(board: &Board) -> (graph: BoardGraph)
        ensures
            board.full() ==> graph.labels(board),
            !board.full() ==> graph@ == Map::<Location, i32>::empty(),
    {
        if board.placed.len() != CELLS {
            return BoardGraph::empty();
        }
        let mut components: Vec<Option<i32>> = Vec::new();
        while components.len() < CELLS
            invariant
                components@.len() <= CELLS,
                forall|k: int| 0 <= k < components@.len() ==> components@[k] is None,
            decreases CELLS - components@.len(),
        {
            components.push(None);
        }
        let mut current_component_id: i32 = -1;
        let locations = Board::locations();
        let mut i: usize = 0;
        while i < locations.len()
            invariant
                board.full(),
                i <= CELLS,
                locations@ == Seq::new(CELLS as nat, |k: int| Location::at(k)),
                components@.len() == CELLS,
                -1 <= current_component_id < i,
                forall|k: int| 0 <= k < i ==> components@[k] is Some,
                forall|k: int|
                    0 <= k < CELLS && components@[k] is Some ==> 0 <= (
                    #[trigger] components@[k]).unwrap() <= current_component_id,
                closed(board, components@),
                faithful(board, components@),
                current_component_id + 1 == board.components_before(i as int),
                numbered(board, components@, i as int),
                reached(board, components@, i as int),
            decreases CELLS - i,
        {
            let location = locations[i];
            proof {
                location.lemma_index(i as int);
            }
            if components[location.rank()].is_none() {
                let ghost before = components@;
                proof {
                    lemma_component_begins(board, before, i as int);
                }
                current_component_id = current_component_id + 1;
                dfs_util(board, &location, &mut components, current_component_id);
                proof {
                    lemma_labelled_one_more(
                        board,
                        before,
                        components@,
                        location,
                        current_component_id,
                    );
                    lemma_numbered_one_more(
                        board,
                        before,
                        components@,
                        i as int,
                        current_component_id,
                    );
                    assert forall|k: int| 0 <= k < CELLS && components@[k] is Some implies 0 <= (
                    #[trigger] components@[k]).unwrap() <= current_component_id by {
                        let l = Location::at(k);
                        l.lemma_index(k);
                        if before[k] is None {
                            assert(has_label(components@, l) && !has_label(before, l));
                        }
                    }
                }
            } else {
                proof {
                    lemma_numbered_same(board, components@, i as int);
                }
            }
            i = i + 1;
        }
        let graph = BoardGraph { components };
        proof {
            assert forall|l: Location| graph@.dom().contains(l) <==> l.on_board() by {
                l.lemma_index(0);
            }
            assert forall|k: int| 0 <= k < CELLS && #[trigger] board.begins_component(k)
                implies graph@[Location::at(k)] == board.components_before(k) by {
                Location::at(k).lemma_index(k);
                assert(graph.components@[k].unwrap() == board.components_before(k));
            }
            assert forall|a: Location, b: Location| a.on_board() && b.on_board() implies (graph@[a]
                == graph@[b] <==> #[trigger] board.connected(a, b)) by {
                a.lemma_index(0);
                b.lemma_index(0);
            }
        }
        graph
    }
}

impl vstd::std_specs::convert::FromSpecImpl<&Board> for BoardGraph {
    open spec fn obeys_from_spec() -> bool {
        false
    }

    open spec fn from_spec(board: &Board) -> BoardGraph {
        arbitrary()
    }
}

/// The first place of every component before rank `i` has the number of its
/// component as its label.
spec fn numbered(board: &Board, labels: Seq<Option<i32>>, i: int) -> bool {
    forall|k: int|
        0 <= k < i && #[trigger] board.begins_component(k) ==> labels[k] is Some
            && labels[k].unwrap() == board.components_before(k)
}

/// A path leads to every labelled place from a place before rank `i`.
spec fn reached(board: &Board, labels: Seq<Option<i32>>, i: int) -> bool {
    forall|l: Location|
        #[trigger] has_label(labels, l) ==> exists|k: int|
            0 <= k < i && board.connected(#[trigger] Location::at(k), l)
}

/// A place without a label, before which all places have labels, is the
/// first of its component.
proof fn lemma_component_begins(board: &Board, labels: Seq<Option<i32>>, i: int)
    requires
        0 <= i < CELLS,
        labels.len() == CELLS,
        closed(board, labels),
        forall|k: int| 0 <= k < i ==> labels[k] is Some,
        labels[i] is None,
    ensures
        board.begins_component(i),
{
    let place = Location::at(i);
    place.lemma_index(i);
    assert forall|j: int| 0 <= j < i implies !board.connected(
        #[trigger] Location::at(j),
        Location::at(i),
    ) by {
        let earlier = Location::at(j);
        earlier.lemma_index(j);
        if board.connected(earlier, place) {
            lemma_closed_set(board, Set::new(|l: Location| has_label(labels, l)), earlier, place);
        }
    }
}

/// The labels of a component that begins at rank `i` leave the components
/// numbered.
proof fn lemma_numbered_one_more(
    board: &Board,
    before: Seq<Option<i32>>,
    labels: Seq<Option<i32>>,
    i: int,
    id: i32,
)
    requires
        0 <= i < CELLS,
        before.len() == CELLS,
        numbered(board, before, i),
        reached(board, before, i),
        board.begins_component(i),
        id == board.components_before(i),
        kept(before, labels),
        grown(board, before, labels, Location::at(i), id),
        has_label(labels, Location::at(i)),
        !has_label(before, Location::at(i)),
    ensures
        numbered(board, labels, i + 1),
        reached(board, labels, i + 1),
{
    let place = Location::at(i);
    place.lemma_index(i);
    assert forall|l: Location| #[trigger] has_label(labels, l) implies exists|k: int|
        0 <= k < i + 1 && board.connected(#[trigger] Location::at(k), l) by {
        if has_label(before, l) {
            let k = choose|k: int| 0 <= k < i && board.connected(#[trigger] Location::at(k), l);
            assert(0 <= k < i + 1 && board.connected(Location::at(k), l));
        } else {
            assert(0 <= i < i + 1 && board.connected(Location::at(i), l));
        }
    }
    assert forall|k: int| 0 <= k < i + 1 && #[trigger] board.begins_component(k) implies labels[k]
        is Some && labels[k].unwrap() == board.components_before(k) by {
        if k < i {
            assert(before[k] is Some);
        }
    }
}

/// A place that has a label already leaves the components numbered.
proof fn lemma_numbered_same(board: &Board, labels: Seq<Option<i32>>, i: int)
    requires
        0 <= i < CELLS,
        labels.len() == CELLS,
        numbered(board, labels, i),
        reached(board, labels, i),
        labels[i] is Some,
    ensures
        !board.begins_component(i),
        numbered(board, labels, i + 1),
        reached(board, labels, i + 1),
{
    let place = Location::at(i);
    place.lemma_index(i);
    assert(has_label(labels, place));
    let j = choose|j: int| 0 <= j < i && board.connected(#[trigger] Location::at(j), place);
    assert(board.connected(Location::at(j), Location::at(i)));
    assert forall|l: Location| #[trigger] has_label(labels, l) implies exists|k: int|
        0 <= k < i + 1 && board.connected(#[trigger] Location::at(k), l) by {
        let k = choose|k: int| 0 <= k < i && board.connected(#[trigger] Location::at(k), l);
        assert(0 <= k < i + 1 && board.connected(Location::at(k), l));
    }
}

/// One more component with a label of its own leaves the labels faithful.
proof fn lemma_labelled_one_more(
    board: &Board,
    before: Seq<Option<i32>>,
    labels: Seq<Option<i32>>,
    start: Location,
    id: i32,
)
    requires
        before.len() == CELLS,
        closed(board, before),
        faithful(board, before),
        forall|k: int| 0 <= k < CELLS ==> before[k] != Some(id),
        kept(before, labels),
        grown(board, before, labels, start, id),
    ensures
        faithful(board, labels),
{
    assert forall|a: Location, b: Location|
        #![trigger has_label(labels, a), has_label(labels, b)]
        has_label(labels, a) && has_label(labels, b) implies (labels[a.index()]
        == labels[b.index()] <==> board.connected(a, b)) by {
        let old_a = has_label(before, a);
        let old_b = has_label(before, b);
        let old_set = Set::new(|l: Location| has_label(before, l));
        if old_a && old_b {
        } else if !old_a && !old_b {
            lemma_connected_symmetric(board, start, a);
            lemma_connected_transitive(board, a, start, b);
        } else if old_a {
            if board.connected(a, b) {
                lemma_closed_set(board, old_set, a, b);
            }
        } else {
            if board.connected(a, b) {
                lemma_connected_symmetric(board, a, b);
                lemma_closed_set(board, old_set, b, a);
            }
        }
    }
}

} // verus!
