use game_tree::game_tree::{GameTree, GameTreeNode, SituationOps};
use game_tree::tic_tac_toe::{
    TicTacToeMove, TicTacToePlayer, TicTacToeSituation, TicTacToeStatus,
};

use TicTacToePlayer::{Defensive, Offensive};

/// A board from nine characters, row by row: `O` for the offensive side,
/// `X` for the defensive side, anything else for an empty cell.
fn board(cells: &str, player: TicTacToePlayer, to_move: TicTacToePlayer) -> TicTacToeSituation {
    let mut start = TicTacToeSituation::new(player, to_move);
    assert_eq!(cells.chars().count(), 9);
    for (pos, c) in cells.chars().enumerate() {
        start.situation[pos] = match c {
            'O' => TicTacToeStatus(Some(Offensive)),
            'X' => TicTacToeStatus(Some(Defensive)),
            _ => TicTacToeStatus(None),
        };
    }
    start
}

/// The value of `situation` searched `depth` plies deep, computed without
/// the engine.
fn reference_value(situation: &TicTacToeSituation, depth: u32, is_max_layer: bool) -> i32 {
    let moves = situation.get_avilable_move();
    if depth == 0 || moves.is_empty() {
        return situation.calc_cost();
    }
    let values = moves
        .iter()
        .map(|m| reference_value(&situation.with_move(m), depth - 1, !is_max_layer));
    if is_max_layer {
        values.max().unwrap()
    } else {
        values.min().unwrap()
    }
}

fn evaluate(
    engine: &GameTree<TicTacToeSituation>,
    depth: u32,
) -> (GameTreeNode<TicTacToeSituation>, Option<usize>) {
    let mut root = GameTreeNode::new(None, None, true);
    engine.build_game_tree(&mut root, depth);
    let best = engine.min_max_search(&mut root);
    (root, best)
}

fn count_nodes(node: &GameTreeNode<TicTacToeSituation>) -> usize {
    1 + node.children.iter().map(count_nodes).sum::<usize>()
}

fn height(node: &GameTreeNode<TicTacToeSituation>) -> usize {
    node.children.iter().map(|c| 1 + height(c)).max().unwrap_or(0)
}

/// Checks, at every node below and including `node`, that a leaf holds the
/// score of its situation and that an inner node holds the first extremal
/// value among its children.
fn check_evaluated(node: &GameTreeNode<TicTacToeSituation>, current: &TicTacToeSituation) {
    let situation = node.data.as_ref().unwrap_or(current);
    if node.children.is_empty() {
        assert_eq!(node.cost, situation.calc_cost());
        return;
    }
    let costs: Vec<i32> = node.children.iter().map(|c| c.cost).collect();
    let extremum = if node.is_max_layer {
        *costs.iter().max().unwrap()
    } else {
        *costs.iter().min().unwrap()
    };
    assert_eq!(node.cost, extremum);
    for child in &node.children {
        assert_eq!(child.is_max_layer, !node.is_max_layer);
        check_evaluated(child, current);
    }
}

#[test]
fn it_works() {
    let result = game_tree::add(2, 2);
    assert_eq!(result, 4);
}

#[test]
fn add_at_the_limits() {
    assert_eq!(game_tree::add(0, 0), 0);
    assert_eq!(game_tree::add(usize::MAX - 1, 1), usize::MAX);
    assert_eq!(game_tree::add(0, usize::MAX), usize::MAX);
}

#[test]
fn new_node_holds_what_it_is_given() {
    let start = board("O........", Defensive, Defensive);
    let node = GameTreeNode::new(Some(start), Some(TicTacToeMove::new(0, Offensive)), false);
    assert_eq!(node.data, Some(start));
    assert_eq!(node.cur_move, Some(TicTacToeMove { pos: 0, player: Offensive }));
    assert!(!node.is_max_layer);
    assert_eq!(node.cost, 0);
    assert!(node.children.is_empty());

    let root: GameTreeNode<TicTacToeSituation> = GameTreeNode::new(None, None, true);
    assert_eq!(root.data, None);
    assert_eq!(root.cur_move, None);
    assert!(root.is_max_layer);
}

#[test]
fn engine_hands_out_its_situation() {
    let start = board("OX.......", Offensive, Offensive);
    let engine = GameTree::new(3, start);
    assert_eq!(*engine.get_cur_situation(), start);
}

#[test]
fn selection_leaves_the_engine_as_it_was() {
    let start = board("OX..O....", Defensive, Defensive);
    let engine = GameTree::new(4, start);
    let _ = engine.get_next_move();
    assert_eq!(*engine.get_cur_situation(), start);
}

#[test]
fn proc_move_advances_the_situation() {
    let mut engine = GameTree::new(2, TicTacToeSituation::new(Offensive, Offensive));
    engine.proc_move(&TicTacToeMove::new(4, Offensive));
    assert_eq!(*engine.get_cur_situation(), board("....O....", Offensive, Defensive));
    engine.proc_move(&TicTacToeMove::new(0, Defensive));
    assert_eq!(*engine.get_cur_situation(), board("X...O....", Offensive, Offensive));
}

#[test]
fn repeated_selection_returns_the_same_move() {
    let engine = GameTree::new(4, board("O...X....", Offensive, Offensive));
    let first = engine.get_next_move();
    assert!(first.is_some());
    for _ in 0..4 {
        assert_eq!(engine.get_next_move(), first);
    }
}

#[test]
fn terminal_situation_gives_a_single_leaf() {
    // The offensive side has the top row: nothing is left to play.
    let won = board("OOOXX....", Offensive, Defensive);
    assert!(won.get_avilable_move().is_empty());
    let engine = GameTree::new(5, won);
    let (root, best) = evaluate(&engine, 5);
    assert_eq!(best, None);
    assert_eq!(count_nodes(&root), 1);
    assert!(root.children.is_empty());
    assert_eq!(root.cost, 1);
    assert_eq!(root.cost, won.calc_cost());
    assert_eq!(engine.get_next_move(), None);
}

#[test]
fn terminal_leaf_keeps_the_sign_of_the_searching_side() {
    let lost = board("OOOXX....", Defensive, Defensive);
    let engine = GameTree::new(3, lost);
    let (root, best) = evaluate(&engine, 3);
    assert_eq!(best, None);
    assert_eq!(root.cost, -1);
}

#[test]
fn ply_limit_zero_reports_no_move() {
    let start = TicTacToeSituation::new(Offensive, Offensive);
    assert_eq!(start.get_avilable_move().len(), 9);
    let engine = GameTree::new(0, start);
    assert_eq!(engine.get_next_move(), None);

    let midgame = GameTree::new(0, board("OX.O.X...", Offensive, Offensive));
    assert_eq!(midgame.get_next_move(), None);
    let (root, best) = evaluate(&midgame, 0);
    assert_eq!(best, None);
    assert!(root.children.is_empty());
    assert_eq!(root.cost, 0);
}

#[test]
fn build_with_budget_zero_leaves_the_node_alone() {
    let engine = GameTree::new(3, TicTacToeSituation::new(Offensive, Offensive));
    let mut root = GameTreeNode::new(None, None, true);
    root.cost = 17;
    engine.build_game_tree(&mut root, 0);
    assert!(root.children.is_empty());
    assert_eq!(root.cost, 17);
    assert!(root.is_max_layer);

    engine.build_game_tree(&mut root, 1);
    assert_eq!(root.children.len(), 9);
    engine.build_game_tree(&mut root, 0);
    assert_eq!(root.children.len(), 9);
}

#[test]
fn built_tree_follows_the_enumeration() {
    let start = board("OX.XO....", Offensive, Offensive);
    let engine = GameTree::new(2, start);
    let mut root = GameTreeNode::new(None, None, true);
    engine.build_game_tree(&mut root, 2);
    assert_eq!(root.data, None);
    assert_eq!(root.cur_move, None);
    assert_eq!(root.cost, 0);
    let moves: Vec<usize> = root.children.iter().map(|c| c.cur_move.unwrap().pos).collect();
    assert_eq!(moves, vec![2, 5, 6, 7, 8]);
    for child in &root.children {
        let played = child.cur_move.unwrap();
        assert_eq!(played.player, Offensive);
        assert!(!child.is_max_layer);
        assert_eq!(child.cost, 0);
        assert_eq!(child.data, Some(start.with_move(&played)));
        if played.pos == 8 {
            // The diagonal 0, 4, 8 is complete: the game is over here.
            assert!(child.children.is_empty());
            continue;
        }
        assert_eq!(child.children.len(), 4);
        for leaf in &child.children {
            let reply = leaf.cur_move.unwrap();
            assert_eq!(reply.player, Defensive);
            assert!(leaf.is_max_layer);
            assert_eq!(leaf.cost, 0);
            assert_eq!(leaf.data, Some(child.data.unwrap().with_move(&reply)));
            assert!(leaf.children.is_empty());
        }
    }
    assert_eq!(count_nodes(&root), 1 + 5 + 4 * 4);
}

#[test]
fn rebuilding_replaces_the_children() {
    let engine = GameTree::new(2, board("OX.XO....", Offensive, Offensive));
    let mut root = GameTreeNode::new(None, None, true);
    engine.build_game_tree(&mut root, 2);
    assert_eq!(height(&root), 2);
    engine.build_game_tree(&mut root, 1);
    assert_eq!(height(&root), 1);
    assert_eq!(root.children.len(), 5);
}

#[test]
fn tree_depth_is_bounded_by_the_ply_limit_and_the_end_of_the_game() {
    let start = board("OXOXOX...", Offensive, Defensive);
    let engine = GameTree::new(9, start);
    let mut root = GameTreeNode::new(None, None, true);
    engine.build_game_tree(&mut root, 2);
    assert_eq!(height(&root), 2);
    engine.build_game_tree(&mut root, 9);
    assert_eq!(height(&root), 3);
}

#[test]
fn a_node_with_a_situation_is_expanded_from_it() {
    let engine = GameTree::new(1, TicTacToeSituation::new(Offensive, Offensive));
    let other = board("OXXXOX.O.", Offensive, Offensive);
    let mut node = GameTreeNode::new(Some(other), None, false);
    engine.build_game_tree(&mut node, 1);
    let moves: Vec<usize> = node.children.iter().map(|c| c.cur_move.unwrap().pos).collect();
    assert_eq!(moves, vec![6, 8]);
    assert!(node.children.iter().all(|c| c.is_max_layer));
    // A minimizing layer: the move that completes the diagonal is passed over.
    assert_eq!(engine.min_max_search(&mut node), Some(0));
    assert_eq!(node.cost, 0);
    assert_eq!(node.children[1].cost, 1);
}

#[test]
fn every_inner_node_holds_the_extremum_of_its_children() {
    let start = board("O...X....", Offensive, Offensive);
    let engine = GameTree::new(4, start);
    let (root, _) = evaluate(&engine, 4);
    assert_eq!(height(&root), 4);
    check_evaluated(&root, &start);

    let late = board("OXO.X.X..", Defensive, Offensive);
    let engine = GameTree::new(9, late);
    let (root, _) = evaluate(&engine, 9);
    check_evaluated(&root, &late);
}

#[test]
fn root_value_agrees_with_a_plain_recursion() {
    let positions = [
        board(".........", Offensive, Offensive),
        board("O...X....", Offensive, Offensive),
        board("O...X....", Defensive, Offensive),
        board("OX.O.....", Offensive, Defensive),
        board("OX.O.....", Defensive, Defensive),
        board("OXOXX.O..", Offensive, Offensive),
        board("OO.XX....", Offensive, Offensive),
    ];
    for start in positions {
        for depth in 0..5 {
            let engine = GameTree::new(depth, start);
            let (root, best) = evaluate(&engine, depth);
            assert_eq!(root.cost, reference_value(&start, depth, true));
            let moves = start.get_avilable_move();
            match best {
                None => assert!(depth == 0 || moves.is_empty()),
                Some(index) => {
                    let values: Vec<i32> = moves
                        .iter()
                        .map(|m| reference_value(&start.with_move(m), depth - 1, false))
                        .collect();
                    let top = *values.iter().max().unwrap();
                    assert_eq!(values.iter().position(|v| *v == top), Some(index));
                    assert_eq!(engine.get_next_move(), Some(moves[index]));
                }
            }
        }
    }
}

#[test]
fn maximizing_layer_keeps_the_first_of_equal_values() {
    // One ply ahead no move decides anything: all nine values are 0.
    let engine = GameTree::new(1, TicTacToeSituation::new(Offensive, Offensive));
    let (root, best) = evaluate(&engine, 1);
    assert!(root.children.iter().all(|c| c.cost == 0));
    assert_eq!(best, Some(0));
    assert_eq!(engine.get_next_move(), Some(TicTacToeMove { pos: 0, player: Offensive }));

    // Two moves win at once, on the cells 2 and 6: the earlier one is taken.
    let engine = GameTree::new(1, board("OO.OXX.X.", Offensive, Offensive));
    let (root, best) = evaluate(&engine, 1);
    let costs: Vec<i32> = root.children.iter().map(|c| c.cost).collect();
    assert_eq!(costs, vec![1, 1, 0]);
    assert_eq!(best, Some(0));
    assert_eq!(engine.get_next_move(), Some(TicTacToeMove { pos: 2, player: Offensive }));
}

#[test]
fn a_later_value_displaces_only_when_strictly_better() {
    let engine = GameTree::new(1, board("X.OXOO.X.", Offensive, Offensive));
    let (root, best) = evaluate(&engine, 1);
    let costs: Vec<i32> = root.children.iter().map(|c| c.cost).collect();
    assert_eq!(costs, vec![0, 1, 1]);
    assert_eq!(best, Some(1));
    assert_eq!(root.cost, 1);
    assert_eq!(engine.get_next_move(), Some(TicTacToeMove { pos: 6, player: Offensive }));
}

#[test]
fn minimizing_layer_keeps_the_first_of_equal_values() {
    // After the offensive side plays cell 8, the defensive side can win on
    // the cells 2 and 6; after it plays 2 or 6, one winning reply is left.
    let start = board("XX.XOO.O.", Offensive, Offensive);
    let engine = GameTree::new(2, start);
    let mut root = GameTreeNode::new(None, None, true);
    engine.build_game_tree(&mut root, 2);
    let last = root.children.len() - 1;
    assert_eq!(root.children[last].cur_move.unwrap().pos, 8);
    assert_eq!(engine.min_max_search(&mut root.children[last]), Some(0));
    let replies: Vec<i32> = root.children[last].children.iter().map(|c| c.cost).collect();
    assert_eq!(replies, vec![-1, -1]);
    assert_eq!(root.children[last].cost, -1);

    assert_eq!(engine.min_max_search(&mut root), Some(0));
    let costs: Vec<i32> = root.children.iter().map(|c| c.cost).collect();
    assert_eq!(costs, vec![-1, -1, -1]);
    assert_eq!(root.cost, -1);
}

#[test]
fn search_overwrites_stale_values_and_keeps_the_shape() {
    let start = board("OX.XO....", Offensive, Offensive);
    let engine = GameTree::new(2, start);
    let mut root = GameTreeNode::new(None, None, true);
    engine.build_game_tree(&mut root, 2);
    root.cost = 55;
    root.children[0].cost = -55;
    root.children[0].children[1].cost = 99;
    assert_eq!(engine.min_max_search(&mut root), Some(4));
    assert_eq!(root.cost, 1);
    check_evaluated(&root, &start);
    let moves: Vec<usize> = root.children.iter().map(|c| c.cur_move.unwrap().pos).collect();
    assert_eq!(moves, vec![2, 5, 6, 7, 8]);
    assert_eq!(count_nodes(&root), 1 + 5 + 4 * 4);
    assert_eq!(root.children[0].data, Some(start.with_move(&TicTacToeMove::new(2, Offensive))));
}

#[test]
fn search_reads_the_layer_flag_of_a_hand_made_node() {
    let engine = GameTree::new(1, TicTacToeSituation::new(Offensive, Offensive));
    let win = board("OOOXX....", Offensive, Defensive);
    let open = board("OO.XX...O", Offensive, Defensive);
    let loss = board("OO.XXX..O", Offensive, Offensive);

    let mut low: GameTreeNode<TicTacToeSituation> = GameTreeNode::new(None, None, false);
    low.children.push(GameTreeNode::new(Some(open), None, true));
    low.children.push(GameTreeNode::new(Some(win), None, true));
    low.children.push(GameTreeNode::new(Some(loss), None, true));
    assert_eq!(engine.min_max_search(&mut low), Some(2));
    assert_eq!(low.cost, -1);

    let mut high: GameTreeNode<TicTacToeSituation> = GameTreeNode::new(None, None, true);
    high.children.push(GameTreeNode::new(Some(open), None, false));
    high.children.push(GameTreeNode::new(Some(win), None, false));
    high.children.push(GameTreeNode::new(Some(loss), None, false));
    assert_eq!(engine.min_max_search(&mut high), Some(1));
    assert_eq!(high.cost, 1);
}

#[test]
fn a_childless_root_takes_the_score_of_the_current_situation() {
    let engine = GameTree::new(3, board("XXXOO....", Offensive, Offensive));
    let mut root: GameTreeNode<TicTacToeSituation> = GameTreeNode::new(None, None, true);
    assert_eq!(engine.min_max_search(&mut root), None);
    assert_eq!(root.cost, -1);
}

#[test]
fn completes_a_line_of_two_at_every_ply_limit() {
    // The side to move holds the cells 0 and 1; cell 2 completes the row.
    let start = board("OO.XX....", Offensive, Offensive);
    for depth in 1..=5 {
        let engine = GameTree::new(depth, start);
        assert_eq!(engine.get_next_move(), Some(TicTacToeMove { pos: 2, player: Offensive }));
        let (root, best) = evaluate(&engine, depth);
        assert_eq!(best, Some(0));
        assert_eq!(root.cost, 1);
    }
}

#[test]
fn completes_a_line_of_two_for_the_defensive_side() {
    // The defensive side is to move and searches for itself.
    let start = board("OO.XX.O..", Defensive, Defensive);
    for depth in 1..=4 {
        let engine = GameTree::new(depth, start);
        assert_eq!(engine.get_next_move(), Some(TicTacToeMove { pos: 5, player: Defensive }));
        let (root, _) = evaluate(&engine, depth);
        assert_eq!(root.cost, 1);
    }
}

#[test]
fn blocks_a_line_of_two_when_it_looks_two_plies_ahead() {
    let start = board("XX..O....", Offensive, Offensive);
    let engine = GameTree::new(2, start);
    assert_eq!(engine.get_next_move(), Some(TicTacToeMove { pos: 2, player: Offensive }));
    let (root, _) = evaluate(&engine, 2);
    let costs: Vec<i32> = root.children.iter().map(|c| c.cost).collect();
    assert_eq!(costs, vec![0, -1, -1, -1, -1, -1]);
    assert_eq!(root.cost, 0);
}

#[test]
fn value_sign_follows_the_searching_side_at_odd_and_even_depth() {
    // The offensive side, to move, can win at once.
    let start_for_offensive = board("OO.XX....", Offensive, Offensive);
    let start_for_defensive = board("OO.XX....", Defensive, Offensive);
    let own = evaluate(&GameTree::new(1, start_for_offensive), 1).0;
    assert_eq!(own.children[0].cost, 1);
    // Seen from the defensive side the same leaf counts -1; its root,
    // a maximizing layer all the same, prefers the moves that do not end
    // the game.
    let other = evaluate(&GameTree::new(1, start_for_defensive), 1).0;
    assert_eq!(other.children[0].cost, -1);
    assert_eq!(other.cost, 0);

    // Two plies deep the defensive reply completes its own row.
    let deeper = evaluate(&GameTree::new(2, board("O..XX...O", Offensive, Offensive)), 2).0;
    let costs: Vec<i32> = deeper.children.iter().map(|c| c.cost).collect();
    assert_eq!(costs, vec![-1, -1, 0, -1, -1]);
    assert!(deeper.children[0].children.iter().any(|leaf| leaf.cost == -1));
}

#[test]
fn full_board_yields_no_move_at_any_ply_limit() {
    let drawn = board("OXOOXXXOO", Offensive, Defensive);
    assert!(drawn.get_avilable_move().is_empty());
    for depth in [0, 1, 2, 9, 100] {
        let engine = GameTree::new(depth, drawn);
        assert_eq!(engine.get_next_move(), None);
        let (root, best) = evaluate(&engine, depth);
        assert_eq!(best, None);
        assert!(root.children.is_empty());
        assert_eq!(root.cost, 0);
    }
}

#[test]
fn empty_board_is_a_draw_under_full_search() {
    let start = TicTacToeSituation::new(Offensive, Offensive);
    let engine = GameTree::new(9, start);
    let (root, best) = evaluate(&engine, 9);
    assert_eq!(root.cost, 0);
    assert_eq!(best, Some(0));
    assert!(root.children.iter().all(|c| c.cost == 0));
    assert_eq!(count_nodes(&root), 549_946);
    assert_eq!(engine.get_next_move(), Some(TicTacToeMove { pos: 0, player: Offensive }));
}

#[test]
fn empty_board_is_a_draw_for_the_second_side_too() {
    // The defensive side searches a board on which the offensive side is
    // to move: its root still maximizes, over positions it does not choose.
    let engine = GameTree::new(9, board("....O....", Defensive, Defensive));
    let (root, _) = evaluate(&engine, 9);
    assert_eq!(root.cost, 0);
}
