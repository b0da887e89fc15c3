//! What holds of the search: the theorems that tie the evaluated tree to
//! the minimax value of a situation, and the laws of move selection.

use crate::game_tree::{
    play, successor_values, value_at, GameTree, GameTreeNode, SituationOps,
};
use crate::policy::{choice, lemma_choice_exists, lemma_choice_is_first_best, no_worse};
use vstd::prelude::*;

verus! {

/// Evaluation changes no shape: a tree that differs from the search tree of
/// `situation` only in the stored values is itself that search tree.
pub proof fn lemma_same_shape_keeps_tree<T: SituationOps>(
    node: GameTreeNode<T>,
    other: GameTreeNode<T>,
    situation: T,
    depth: nat,
)
    requires
        node.same_shape(other),
        other.is_tree_of(situation, depth),
    ensures
        node.is_tree_of(situation, depth),
    decreases depth,
{
    if depth > 0 && situation.moves().len() > 0 {
        assert forall|i: int| 0 <= i < node.children@.len() implies {
            let child = #[trigger] node.children@[i];
            let next_move = situation.moves()[i];
            &&& child.data == Some(situation.after(next_move))
            &&& child.cur_move == Some(next_move)
            &&& child.is_max_layer == !node.is_max_layer
            &&& child.is_tree_of(situation.after(next_move), (depth - 1) as nat)
        } by {
            let child = node.children@[i];
            let twin = other.children@[i];
            assert(child.same_shape(twin));
            lemma_same_shape_keeps_tree(
                child,
                twin,
                situation.after(situation.moves()[i]),
                (depth - 1) as nat,
            );
        }
    }
}

/// The value stored at the root of the evaluated search tree of `situation`
/// to `depth` plies is the minimax value of `situation` at that depth.
pub proof fn lemma_evaluated_tree_cost<T: SituationOps>(
    node: GameTreeNode<T>,
    current: T,
    situation: T,
    depth: nat,
)
    requires
        node.is_tree_of(situation, depth),
        node.evaluated(current),
        node.situation(current) == situation,
    ensures
        node.cost == value_at(situation, depth, node.is_max_layer),
    decreases depth, 1nat,
{
    if depth > 0 && situation.moves().len() > 0 {
        lemma_child_costs_are_successor_values(node, current, situation, depth);
    }
}

/// In the evaluated search tree of `situation` to `depth` plies, the values
/// stored in the root's children are the minimax values of the successors.
pub proof fn lemma_child_costs_are_successor_values<T: SituationOps>(
    node: GameTreeNode<T>,
    current: T,
    situation: T,
    depth: nat,
)
    requires
        node.is_tree_of(situation, depth),
        node.evaluated(current),
        depth > 0,
        situation.moves().len() > 0,
    ensures
        node.child_costs() == successor_values(situation, depth, node.is_max_layer),
    decreases depth, 0nat,
{
    let values = successor_values(situation, depth, node.is_max_layer);
    assert forall|i: int| 0 <= i < node.children@.len() implies node.child_costs()[i]
        == values[i] by {
        let child = node.children@[i];
        assert(child.evaluated(current));
        lemma_evaluated_tree_cost(
            child,
            current,
            situation.after(situation.moves()[i]),
            (depth - 1) as nat,
        );
    }
    assert(node.child_costs() =~= values);
}

/// Along every path of the search tree of `situation` to `depth` plies: the
/// path is no longer than `depth`, the layers alternate, and the node it
/// leads to heads the search tree of the situation reached by the moves of
/// the path, with the plies that are left.
pub proof fn lemma_tree_along_path<T: SituationOps>(
    node: GameTreeNode<T>,
    situation: T,
    depth: nat,
    path: Seq<int>,
)
    requires
        node.is_tree_of(situation, depth),
        node.has_path(path),
    ensures
        path.len() <= depth,
        node.node_at(path).is_max_layer == (node.is_max_layer == (path.len() % 2 == 0)),
        node.node_at(path).is_tree_of(play(situation, path), (depth - path.len()) as nat),
        path.len() > 0 ==> node.node_at(path).data == Some(play(situation, path)),
    decreases path.len(),
{
    if path.len() > 0 {
        let child = node.children@[path[0]];
        let next = situation.after(situation.moves()[path[0]]);
        let rest = path.drop_first();
        lemma_tree_along_path(child, next, (depth - 1) as nat, rest);
        if rest.len() == 0 {
            assert(child.node_at(rest) == child);
            assert(play(next, rest) == next);
        }
    }
}

/// Evaluation reaches every node: whatever path leads to it, the subtree
/// under it is evaluated.
pub proof fn lemma_evaluated_along_path<T: SituationOps>(
    node: GameTreeNode<T>,
    current: T,
    path: Seq<int>,
)
    requires
        node.evaluated(current),
        node.has_path(path),
    ensures
        node.node_at(path).evaluated(current),
    decreases path.len(),
{
    if path.len() > 0 {
        let child = node.children@[path[0]];
        assert(child.evaluated(current));
        lemma_evaluated_along_path(child, current, path.drop_first());
    }
}

/// At every inner node of an evaluated tree, the stored value is the
/// largest of the children's values on a maximizing layer and the smallest on
/// a minimizing layer, and it is the value of one of the children.
pub proof fn lemma_inner_node_holds_extremum<T: SituationOps>(
    root: GameTreeNode<T>,
    current: T,
    path: Seq<int>,
)
    requires
        root.evaluated(current),
        root.has_path(path),
        root.node_at(path).children@.len() > 0,
    ensures
        ({
            let node = root.node_at(path);
            &&& exists|i: int|
                0 <= i < node.children@.len() && node.cost == (#[trigger] node.children@[i]).cost
            &&& forall|i: int|
                0 <= i < node.children@.len() ==> if node.is_max_layer {
                    (#[trigger] node.children@[i]).cost <= node.cost
                } else {
                    node.children@[i].cost >= node.cost
                }
        }),
{
    lemma_evaluated_along_path(root, current, path);
    let node = root.node_at(path);
    let costs = node.child_costs();
    lemma_choice_exists(node.is_max_layer, costs);
    let chosen = choice(node.is_max_layer, costs);
    assert(node.cost == node.children@[chosen].cost);
    assert forall|i: int| 0 <= i < node.children@.len() implies if node.is_max_layer {
        (#[trigger] node.children@[i]).cost <= node.cost
    } else {
        node.children@[i].cost >= node.cost
    } by {
        assert(no_worse(node.is_max_layer, costs[chosen], costs[i]));
    }
}

/// At every leaf of an evaluated tree, the stored value is the score of the
/// situation that the leaf stands for.
pub proof fn lemma_leaf_holds_own_score<T: SituationOps>(
    root: GameTreeNode<T>,
    current: T,
    path: Seq<int>,
)
    requires
        root.evaluated(current),
        root.has_path(path),
        root.node_at(path).children@.len() == 0,
    ensures
        root.node_at(path).cost == root.node_at(path).situation(current).cost(),
{
    lemma_evaluated_along_path(root, current, path);
}

/// A situation without legal moves has a search tree of one node, at every
/// ply limit, and evaluation stores the situation's own score there.
pub proof fn lemma_terminal_situation_is_single_leaf<T: SituationOps>(
    node: GameTreeNode<T>,
    current: T,
    situation: T,
    depth: nat,
)
    requires
        situation.moves().len() == 0,
        node.is_tree_of(situation, depth),
        node.evaluated(current),
        node.situation(current) == situation,
    ensures
        node.children@.len() == 0,
        forall|path: Seq<int>| node.has_path(path) ==> path.len() == 0,
        node.cost == situation.cost(),
        value_at(situation, depth, node.is_max_layer) == situation.cost(),
{
    assert forall|path: Seq<int>| node.has_path(path) implies path.len() == 0 by {
        if path.len() > 0 {
            assert(0 <= path[0] < node.children@.len());
        }
    }
}

/// The minimax value of a situation with legal moves, searched at least one
/// ply deep, is the largest of its successors' values on a maximizing layer
/// and the smallest on a minimizing layer, and one of the successors has it.
pub proof fn lemma_value_is_extremum_of_successors<T: SituationOps>(
    situation: T,
    depth: nat,
    is_max_layer: bool,
)
    requires
        depth > 0,
        situation.moves().len() > 0,
    ensures
        ({
            let values = successor_values(situation, depth, is_max_layer);
            let value = value_at(situation, depth, is_max_layer);
            &&& values.len() == situation.moves().len()
            &&& exists|i: int| 0 <= i < values.len() && #[trigger] values[i] == value
            &&& forall|i: int|
                0 <= i < values.len() ==> if is_max_layer {
                    #[trigger] values[i] <= value
                } else {
                    values[i] >= value
                }
        }),
{
    let values = successor_values(situation, depth, is_max_layer);
    lemma_choice_exists(is_max_layer, values);
    let chosen = choice(is_max_layer, values);
    assert(values[chosen] == value_at(situation, depth, is_max_layer));
    assert forall|i: int| 0 <= i < values.len() implies if is_max_layer {
        #[trigger] values[i] <= values[chosen]
    } else {
        values[i] >= values[chosen]
    } by {
        assert(no_worse(is_max_layer, values[chosen], values[i]));
    }
}

/// Selection is a function of the situation and the ply limit: engines that
/// agree in both select the same move, however often they are asked.
pub proof fn lemma_selection_is_deterministic<T: SituationOps>(a: GameTree<T>, b: GameTree<T>)
    requires
        a.situation() == b.situation(),
        a.depth() == b.depth(),
    ensures
        a.next_move() == b.next_move(),
{
}

/// With a ply limit of 0 no move is selected, whatever moves are legal.
pub proof fn lemma_ply_limit_zero_selects_nothing<T: SituationOps>(engine: GameTree<T>)
    requires
        engine.depth() == 0,
    ensures
        engine.next_move() is None,
{
}

/// The selected move leads to a successor of the largest value, and every
/// legal move enumerated before it leads to a strictly smaller one: among
/// equally good moves the first is selected.
pub proof fn lemma_selection_is_first_best<T: SituationOps>(engine: GameTree<T>)
    requires
        engine.depth() > 0,
        engine.situation().moves().len() > 0,
    ensures
        ({
            let moves = engine.situation().moves();
            let values = successor_values(engine.situation(), engine.depth(), true);
            let chosen = choice(true, values);
            &&& 0 <= chosen < moves.len() == values.len()
            &&& engine.next_move() == Some(moves[chosen])
            &&& values[chosen] == value_at(engine.situation(), engine.depth(), true)
            &&& forall|i: int| 0 <= i < values.len() ==> #[trigger] values[i] <= values[chosen]
            &&& forall|i: int| 0 <= i < chosen ==> #[trigger] values[i] < values[chosen]
        }),
{
    let values = successor_values(engine.situation(), engine.depth(), true);
    lemma_choice_is_first_best(true, values);
}

} // verus!
