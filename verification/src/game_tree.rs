//! The search engine: the contract a game must satisfy, the search tree, and
//! the build-and-evaluate pipeline that selects a move.

use crate::policy::{
    choice, is_choice, lemma_choice_exists, lemma_choice_step, lemma_choice_unique,
};
use crate::theorems::{lemma_child_costs_are_successor_values, lemma_same_shape_keeps_tree};
use vstd::prelude::*;

verus! {

/// What a game state must offer to be searched.
///
/// A situation is a snapshot of a game. Its rules are given by three
/// functions of the snapshot alone: the legal moves in a fixed order, the
/// situation that a move leads to, and a score. The four methods compute
/// them; the engine relies on each call returning what its function says, so
/// that asking twice gives the same answer.
pub trait SituationOps: Sized {
    /// A transition from one situation to the next.
    type Move;

    /// The legal moves of the side to move, in enumeration order. Empty
    /// where the game is over.
    spec fn moves(&self) -> Seq<Self::Move>;

    /// The situation reached by playing `next_move`, with the other side to
    /// move. Meaningful for a legal move.
    spec fn after(&self, next_move: Self::Move) -> Self;

    /// The score of this situation, seen from the side that owns the
    /// search whoever is to move: positive where that side is better off,
    /// negative where it is worse off.
    spec fn cost(&self) -> int;

    /// Enumerates the legal moves.
    fn get_avilable_move(&self) -> (moves: Vec<Self::Move>)
        ensures
            moves@ == self.moves(),
    ;

    /// Plays `next_move`, one of the legal moves, on this situation.
    fn proc_move(&mut self, next_move: &Self::Move)
        requires
            old(self).moves().contains(*next_move),
        ensures
            *final(self) == old(self).after(*next_move),
    ;

    /// The situation that `next_move`, one of the legal moves, leads to;
    /// this situation stays as it is.
    fn with_move(&self, next_move: &Self::Move) -> (next: Self)
        requires
            self.moves().contains(*next_move),
        ensures
            next == self.after(*next_move),
    ;

    /// Scores this situation.
    fn calc_cost(&self) -> (cost: i32)
        ensures
            cost == self.cost(),
    ;
}

/// The minimax value of `situation` searched `depth` plies deep, where
/// `is_max_layer` tells whose layer the situation stands on: the
/// situation's own score where the search stops, otherwise the successor
/// value that the layer selects.
pub open spec fn value_at<T: SituationOps>(situation: T, depth: nat, is_max_layer: bool) -> int
    decreases depth, 1nat,
{
    if depth == 0 || situation.moves().len() == 0 {
        situation.cost()
    } else {
        let values = successor_values(situation, depth, is_max_layer);
        values[choice(is_max_layer, values)]
    }
}

/// The minimax values of the successors of `situation`, one per legal move
/// and in enumeration order, where `situation` stands on a layer of kind
/// `is_max_layer` with `depth` plies left to search: each successor stands
/// on the opposite layer with one ply less. Empty where no ply is left.
pub open spec fn successor_values<T: SituationOps>(
    situation: T,
    depth: nat,
    is_max_layer: bool,
) -> Seq<int>
    decreases depth, 0nat,
{
    if depth == 0 {
        Seq::empty()
    } else {
        Seq::new(
            situation.moves().len(),
            |i: int|
                value_at(situation.after(situation.moves()[i]), (depth - 1) as nat, !is_max_layer),
        )
    }
}

/// The situation reached from `situation` by playing, for each entry of
/// `path` in turn, the legal move at that position of the enumeration.
pub open spec fn play<T: SituationOps>(situation: T, path: Seq<int>) -> T
    decreases path.len(),
{
    if path.len() == 0 {
        situation
    } else {
        play(situation.after(situation.moves()[path[0]]), path.drop_first())
    }
}

/// One hypothetical state of the game, reached from the real current state
/// by the moves on the path from the root.
pub struct GameTreeNode<T: SituationOps> {
    /// The situation at this node; absent at a root, which stands for the
    /// engine's current situation.
    pub data: Option<T>,
    /// The move that led here; absent at a root.
    pub cur_move: Option<T::Move>,
    /// Whether the side the search runs for is to move here.
    pub is_max_layer: bool,
    /// The value of this node, once the tree has been evaluated.
    pub cost: i32,
    /// One node per continuation, in enumeration order.
    pub children: Vec<GameTreeNode<T>>,
}

impl<T: SituationOps> GameTreeNode<T> {
    /// The situation this node stands for, given the engine's `current` one.
    pub open spec fn situation(self, current: T) -> T {
        match self.data {
            Some(situation) => situation,
            None => current,
        }
    }

    /// The values stored in the children, in order.
    pub open spec fn child_costs(self) -> Seq<int> {
        Seq::new(self.children@.len(), |i: int| self.children@[i].cost as int)
    }

    /// Whether the nodes below this one are the full-width search tree of
    /// `situation` to `depth` plies: no children where the budget is spent
    /// or no move is legal, otherwise one child per legal move, in
    /// enumeration order, holding the successor situation, the move, the
    /// opposite layer flag, and below it the tree of one ply less.
    pub open spec fn is_tree_of(self, situation: T, depth: nat) -> bool
        decreases depth,
    {
        if depth == 0 || situation.moves().len() == 0 {
            self.children@.len() == 0
        } else {
            &&& self.children@.len() == situation.moves().len()
            &&& forall|i: int|
                0 <= i < self.children@.len() ==> {
                    let child = #[trigger] self.children@[i];
                    let next_move = situation.moves()[i];
                    &&& child.data == Some(situation.after(next_move))
                    &&& child.cur_move == Some(next_move)
                    &&& child.is_max_layer == !self.is_max_layer
                    &&& child.is_tree_of(situation.after(next_move), (depth - 1) as nat)
                }
        }
    }

    /// Whether every node below this one holds the value 0, as a node does
    /// that no evaluation has reached yet.
    pub open spec fn is_fresh_below(self) -> bool
        decreases self,
    {
        forall|i: int|
            0 <= i < self.children@.len() ==> {
                let child = #[trigger] self.children@[i];
                &&& child.cost == 0
                &&& child.is_fresh_below()
            }
    }

    /// Whether the tree under this node is evaluated: a node without
    /// children holds the score of its own situation, and every other node
    /// holds the value of the child that its layer selects, first among
    /// equals.
    pub open spec fn evaluated(self, current: T) -> bool
        decreases self,
    {
        &&& if self.children@.len() == 0 {
            self.cost == self.situation(current).cost()
        } else {
            self.cost == self.child_costs()[choice(self.is_max_layer, self.child_costs())]
        }
        &&& forall|i: int|
            0 <= i < self.children@.len() ==> (#[trigger] self.children@[i]).evaluated(current)
    }

    /// Whether this tree and `other` are the same but for the stored values.
    pub open spec fn same_shape(self, other: Self) -> bool
        decreases self,
    {
        &&& self.data == other.data
        &&& self.cur_move == other.cur_move
        &&& self.is_max_layer == other.is_max_layer
        &&& self.children@.len() == other.children@.len()
        &&& forall|i: int|
            0 <= i < self.children@.len() ==> (#[trigger] self.children@[i]).same_shape(
                other.children@[i],
            )
    }

    /// Whether `path` leads from this node down to a node of the tree, each
    /// entry naming the position of the next child.
    pub open spec fn has_path(self, path: Seq<int>) -> bool
        decreases path.len(),
    {
        path.len() == 0 || {
            &&& 0 <= path[0] < self.children@.len()
            &&& self.children@[path[0]].has_path(path.drop_first())
        }
    }

    /// The node that `path` leads to.
    pub open spec fn node_at(self, path: Seq<int>) -> Self
        decreases path.len(),
    {
        if path.len() == 0 {
            self
        } else {
            self.children@[path[0]].node_at(path.drop_first())
        }
    }

    /// A node without children, holding what it is given and the value 0.
    pub fn new(data: Option<T>, cur_move: Option<T::Move>, is_max_layer: bool) -> (node: Self)
        ensures
            node.data == data,
            node.cur_move == cur_move,
            node.is_max_layer == is_max_layer,
            node.cost == 0,
            node.children@ == Seq::<GameTreeNode<T>>::empty(),
    {
        Self {
            data: data,
            cur_move: cur_move,
            is_max_layer: is_max_layer,
            cost: 0,
            children: Vec::with_capacity(0),
        }
    }
}

/// The search engine of one player: the current situation of the game and
/// the number of plies to look ahead.
pub struct GameTree<T: SituationOps> {
    search_depth: u32,
    cur_situation: T,
}

impl<T: SituationOps> GameTree<T> {
    /// The ply limit of the search.
    pub closed spec fn depth(&self) -> nat {
        self.search_depth as nat
    }

    /// The current situation of the game, as this engine knows it.
    pub closed spec fn situation(&self) -> T {
        self.cur_situation
    }

    /// The move that a search from the current situation selects: none
    /// where the ply limit is 0 or no move is legal, otherwise the legal
    /// move whose successor has the largest minimax value, the first of
    /// them in enumeration order where several do.
    pub open spec fn next_move(&self) -> Option<T::Move> {
        let moves = self.situation().moves();
        if self.depth() == 0 || moves.len() == 0 {
            None
        } else {
            let values = successor_values(self.situation(), self.depth(), true);
            Some(moves[choice(true, values)])
        }
    }

    /// An engine that searches `search_depth` plies ahead, starting from
    /// `init_situation`.
    pub fn new(search_depth: u32, init_situation: T) -> (tree: Self)
        ensures
            tree.depth() == search_depth,
            tree.situation() == init_situation,
    {
        Self { search_depth: search_depth, cur_situation: init_situation }
    }

    /// The current situation of the game.
    pub fn get_cur_situation(&self) -> (situation: &T)
        ensures
            *situation == self.situation(),
    {
        &self.cur_situation
    }

    /// Records that `next_move` was played, by either side.
    pub fn proc_move(&mut self, next_move: &T::Move)
        requires
            old(self).situation().moves().contains(*next_move),
        ensures
            final(self).situation() == old(self).situation().after(*next_move),
            final(self).depth() == old(self).depth(),
    {
        self.cur_situation.proc_move(next_move);
    }

    /// Searches from the current situation to the ply limit and returns the
    /// move to play, if there is one. The engine itself is left as it was.
    pub fn get_next_move(&self) -> (next: Option<T::Move>)
        ensures
            next == self.next_move(),
            next is None <==> self.depth() == 0 || self.situation().moves().len() == 0,
    {
        let mut root = GameTreeNode::new(None, None, true);
        self.build_game_tree(&mut root, self.search_depth);
        let ghost built = root;
        let best = self.min_max_search(&mut root);
        proof {
            lemma_same_shape_keeps_tree(root, built, self.situation(), self.depth());
            if root.children@.len() > 0 {
                lemma_child_costs_are_successor_values(
                    root,
                    self.situation(),
                    self.situation(),
                    self.depth(),
                );
                let values = successor_values(self.situation(), self.depth(), true);
                lemma_choice_exists(true, values);
                lemma_choice_unique(true, values, best->0 as int, choice(true, values));
            }
        }
        match best {
            Some(idx) => Some(root.children.remove(idx).cur_move.unwrap()),
            None => None,
        }
    }

    /// Hangs under `root` the full-width search tree of its situation to
    /// `search_depth` plies, in place of whatever children it had. With a
    /// budget of 0 the node is left as it is. Every new node holds the value
    /// 0, which means nothing until the tree is evaluated.
    pub fn build_game_tree(&self, root: &mut GameTreeNode<T>, search_depth: u32)
        ensures
            final(root).data == old(root).data,
            final(root).cur_move == old(root).cur_move,
            final(root).is_max_layer == old(root).is_max_layer,
            final(root).cost == old(root).cost,
            search_depth == 0 ==> final(root).children == old(root).children,
            search_depth > 0 ==> final(root).is_tree_of(
                old(root).situation(self.situation()),
                search_depth as nat,
            ),
            search_depth > 0 ==> final(root).is_fresh_below(),
        decreases search_depth,
    {
        if search_depth == 0 {
            return ;
        }
        let cur_situation = match &root.data {
            Some(data) => data,
            None => &self.cur_situation,
        };
        let ghost situation = *cur_situation;
        let moves = cur_situation.get_avilable_move();
        let ghost all_moves = moves@;
        let mut children: Vec<GameTreeNode<T>> = Vec::new();
        for next_move in it: moves
            invariant
                it.seq() == all_moves,
                all_moves == situation.moves(),
                *cur_situation == situation,
                children@.len() == it.index(),
                forall|j: int|
                    0 <= j < children@.len() ==> {
                        let child = #[trigger] children@[j];
                        &&& child.data == Some(situation.after(all_moves[j]))
                        &&& child.cur_move == Some(all_moves[j])
                        &&& child.is_max_layer == !root.is_max_layer
                        &&& child.cost == 0
                        &&& child.children@.len() == 0
                    },
        {
            assert(all_moves[it.index()] == next_move);
            let next = cur_situation.with_move(&next_move);
            children.push(GameTreeNode::new(Some(next), Some(next_move), !root.is_max_layer));
        }
        root.children = children;
        let mut i: usize = 0;
        while i < root.children.len()
            invariant
                search_depth > 0,
                root.data == old(root).data,
                root.cur_move == old(root).cur_move,
                root.is_max_layer == old(root).is_max_layer,
                root.cost == old(root).cost,
                situation == old(root).situation(self.situation()),
                i <= root.children@.len() == situation.moves().len(),
                forall|j: int|
                    0 <= j < root.children@.len() ==> {
                        let child = #[trigger] root.children@[j];
                        &&& child.data == Some(situation.after(situation.moves()[j]))
                        &&& child.cur_move == Some(situation.moves()[j])
                        &&& child.is_max_layer == !root.is_max_layer
                        &&& child.cost == 0
                        &&& j < i ==> child.is_tree_of(
                            situation.after(situation.moves()[j]),
                            (search_depth - 1) as nat,
                        )
                        &&& j < i ==> child.is_fresh_below()
                        &&& j >= i ==> child.children@.len() == 0
                    },
            decreases root.children.len() - i,
        {
            self.build_game_tree(&mut root.children[i], search_depth - 1);
            i += 1;
        }
    }

    /// Evaluates the tree under `root` from the leaves up, storing in every
    /// node its value, and returns the position of the child that `root`
    /// selects; none where `root` has no children. A leaf takes the score of
    /// its own situation, a root without one that of the engine's current
    /// situation. Nothing but the stored values changes.
    pub fn min_max_search(&self, root: &mut GameTreeNode<T>) -> (best: Option<usize>)
        ensures
            final(root).same_shape(*old(root)),
            final(root).evaluated(self.situation()),
            match best {
                Some(index) => is_choice(
                    final(root).is_max_layer,
                    final(root).child_costs(),
                    index as int,
                ),
                None => final(root).children@.len() == 0,
            },
        decreases *old(root),
    {
        if root.children.is_empty() {
            let cost: i32 = match &root.data {
                Some(data) => data.calc_cost(),
                None => self.cur_situation.calc_cost(),
            };
            root.cost = cost;
            return None;
        }
        let mut i: usize = 0;
        while i < root.children.len()
            invariant
                root.data == old(root).data,
                root.cur_move == old(root).cur_move,
                root.is_max_layer == old(root).is_max_layer,
                i <= root.children@.len() == old(root).children@.len(),
                forall|j: int|
                    0 <= j < i ==> {
                        let child = #[trigger] root.children@[j];
                        &&& child.same_shape(old(root).children@[j])
                        &&& child.evaluated(self.situation())
                    },
                forall|j: int|
                    i <= j < root.children@.len() ==> #[trigger] root.children@[j] == old(
                        root,
                    ).children@[j],
            decreases root.children.len() - i,
        {
            self.min_max_search(&mut root.children[i]);
            i += 1;
        }
        let ghost costs = root.child_costs();
        let mut next_move_id: usize = 0;
        let mut k: usize = 0;
        while k < root.children.len()
            invariant
                costs == root.child_costs(),
                k <= root.children@.len(),
                next_move_id < root.children@.len(),
                k == 0 ==> next_move_id == 0,
                k > 0 ==> is_choice(root.is_max_layer, costs.take(k as int), next_move_id as int),
            decreases root.children.len() - k,
        {
            let candidate: i32 = root.children[k].cost;
            let held: i32 = root.children[next_move_id].cost;
            let displaces: bool = if root.is_max_layer {
                candidate > held
            } else {
                candidate < held
            };
            proof {
                if k > 0 {
                    lemma_choice_step(
                        root.is_max_layer,
                        costs.take(k as int),
                        next_move_id as int,
                        costs[k as int],
                    );
                    assert(costs.take(k as int).push(costs[k as int]) =~= costs.take(k + 1));
                } else {
                    assert(is_choice(root.is_max_layer, costs.take(1), 0));
                }
            }
            if displaces {
                next_move_id = k;
            }
            k += 1;
        }
        proof {
            assert(costs.take(root.children@.len() as int) =~= costs);
            lemma_choice_exists(root.is_max_layer, costs);
            lemma_choice_unique(
                root.is_max_layer,
                costs,
                next_move_id as int,
                choice(root.is_max_layer, costs),
            );
        }
        root.cost = root.children[next_move_id].cost;
        Some(next_move_id)
    }
}

} // verus!
