use rbattle::state::{simulate_flow, Occupied, Player, MAX_GOOP};

#[test]
fn test_flow_into_unoccupied_cell() {
    // The kingdom of Florin is invading the kingdom of Guilder and flooding it with goop.
    let mut florin = Some(Occupied { player: Player(1), outflows: vec![2], goop: 15 });
    let mut guilder = None;

    // This isn't considered an attack, since Guilder was completely unoccupied.
    assert_eq!(simulate_flow(&mut florin, &mut guilder), false);

    // One unit of goop flowed. The newly occupied territory now belongs to player 1.
    assert_eq!(florin, Some(Occupied { player: Player(1), outflows: vec![2], goop: 14 }));
    assert_eq!(guilder, Some(Occupied { player: Player(1), outflows: vec![], goop: 1 }));
}

#[test]
fn test_flow_empties_cell() {
    // Same scenario, except this time there is just one unit of goop in Florin.
    let mut florin = Some(Occupied { player: Player(1), outflows: vec![2], goop: 1 });
    let mut guilder = None;

    // As above, this isn't considered an attack.
    assert_eq!(simulate_flow(&mut florin, &mut guilder), false);

    // One unit of goop flowed, leaving Florin emptied of goop (but still
    // considered occupied by player 1).
    assert_eq!(florin, Some(Occupied { player: Player(1), outflows: vec![2], goop: 0 }));
    assert_eq!(guilder, Some(Occupied { player: Player(1), outflows: vec![], goop: 1 }));

    // In the next tick of the game, no more goop flows, because Florin is now empty.
    assert_eq!(simulate_flow(&mut florin, &mut guilder), false);

    // The state after this second simulated step is therefore exactly the same as before.
    assert_eq!(florin, Some(Occupied { player: Player(1), outflows: vec![2], goop: 0 }));
    assert_eq!(guilder, Some(Occupied { player: Player(1), outflows: vec![], goop: 1 }));
}

#[test]
fn test_no_flow_from_empty_cell() {
    // Florin, alas, has ambitions of conquest but no goop to carry them out with.
    let mut florin = Some(Occupied { player: Player(1), outflows: vec![2, 3, 4], goop: 0 });

    // Florin can try to flow into a cell that's never been occupied, but since
    // Florin has no goop, the cell does *not* become occupied.
    let mut zolot = None;
    assert_eq!(simulate_flow(&mut florin, &mut zolot), false);
    assert_eq!(florin, Some(Occupied { player: Player(1), outflows: vec![2, 3, 4], goop: 0 }));
    assert_eq!(zolot, None);

    // Nor can Florin attack a cell occupied by an opponent with goop.
    let mut guilder = Some(Occupied { player: Player(2), outflows: vec![5, 6], goop: 1 });
    // The attempt does not count as an attack, since no goop flowed.
    assert_eq!(simulate_flow(&mut florin, &mut guilder), false);
    assert_eq!(florin, Some(Occupied { player: Player(1), outflows: vec![2, 3, 4], goop: 0 }));
    assert_eq!(guilder, Some(Occupied { player: Player(2), outflows: vec![5, 6], goop: 1 }));

    // Same deal even if Guilder also has no goop.
    guilder = Some(Occupied { player: Player(2), outflows: vec![5, 6], goop: 0 });
    assert_eq!(simulate_flow(&mut florin, &mut guilder), false);
    assert_eq!(florin, Some(Occupied { player: Player(1), outflows: vec![2, 3, 4], goop: 0 }));
    assert_eq!(guilder, Some(Occupied { player: Player(2), outflows: vec![5, 6], goop: 0 }));

    // Nor can Florin reinforce Guilder if they happen to be occupied by the same player.
    guilder = Some(Occupied { player: Player(1), outflows: vec![5, 6], goop: 0 });
    assert_eq!(simulate_flow(&mut florin, &mut guilder), false);
    assert_eq!(florin, Some(Occupied { player: Player(1), outflows: vec![2, 3, 4], goop: 0 }));
    assert_eq!(guilder, Some(Occupied { player: Player(1), outflows: vec![5, 6], goop: 0 }));
}

#[test]
fn test_friendly_flow() {
    // Florin is sending goop into the friendly neighboring province of Krugerrand.
    let mut florin = Some(Occupied { player: Player(1), outflows: vec![2], goop: 8 });
    let mut krugerrand = Some(Occupied { player: Player(1), outflows: vec![3], goop: 0 });
    // This isn't an attack, since the same player occupies both.
    assert_eq!(simulate_flow(&mut florin, &mut krugerrand), false);
    // A unit of goop actually flowed.
    assert_eq!(florin, Some(Occupied { player: Player(1), outflows: vec![2], goop: 7 }));
    // Krugerrand received the goop, and its outflows are unaffected.
    assert_eq!(krugerrand, Some(Occupied { player: Player(1), outflows: vec![3], goop: 1 }));

    // It works even if the destination already has more goop than Florin.
    krugerrand.as_mut().unwrap().goop = 9;
    assert_eq!(simulate_flow(&mut florin, &mut krugerrand), false);
    assert_eq!(florin.unwrap().goop, 6);
    assert_eq!(krugerrand.unwrap().goop, 10);
}

#[test]
fn test_friendly_flow_empties_cell() {
    // Florin can send its only unit of goop to a neighboring empty or nonempty friendly cell.
    let mut florin = Some(Occupied { player: Player(1), outflows: vec![2, 3], goop: 1 });
    let mut guilder = Some(Occupied { player: Player(1), outflows: vec![4], goop: 0 });
    // This isn't an attack, since the same player occupies both.
    assert_eq!(simulate_flow(&mut florin, &mut guilder), false);
    // A unit of goop actually flowed.
    assert_eq!(florin, Some(Occupied { player: Player(1), outflows: vec![2, 3], goop: 0 }));
    // Guilder received the goop, and its outflows are unaffected.
    assert_eq!(guilder, Some(Occupied { player: Player(1), outflows: vec![4], goop: 1 }));

    // Restore Florin's 1 unit of goop and try again.
    florin.as_mut().unwrap().goop = 1;
    assert_eq!(simulate_flow(&mut florin, &mut guilder), false);
    assert_eq!(florin, Some(Occupied { player: Player(1), outflows: vec![2, 3], goop: 0 }));
    assert_eq!(guilder, Some(Occupied { player: Player(1), outflows: vec![4], goop: 2 }));
}

#[test]
fn test_friendly_flow_max_goop() {
    // Florin can't pump any more goop into its friendly neighbor Pfennig,
    // which has the maximum amount already.
    let mut florin = Some(Occupied { player: Player(1), outflows: vec![2], goop: 3 });
    let mut pfennig = Some(Occupied { player: Player(1), outflows: vec![4], goop: MAX_GOOP });

    assert_eq!(simulate_flow(&mut florin, &mut pfennig), false);
    assert_eq!(florin, Some(Occupied { player: Player(1), outflows: vec![2], goop: 3 }));
    assert_eq!(pfennig, Some(Occupied { player: Player(1), outflows: vec![4], goop: MAX_GOOP }));
}

#[test]
fn test_attack_empty_cell() {
    // Florin siezes the opportunity to invade Guilder, which is left unguarded.
    let mut florin = Some(Occupied { player: Player(1), outflows: vec![2], goop: 3 });
    let mut guilder = Some(Occupied { player: Player(2), outflows: vec![1], goop: 0 });

    // This is an attack!
    assert_eq!(simulate_flow(&mut florin, &mut guilder), true);
    // Afterwards, player 1 controls Guilder. Note that Guilder's `.outflows`
    // field is cleared. Since Guilder is being attacked, flow through it is inhibited.
    assert_eq!(florin, Some(Occupied { player: Player(1), outflows: vec![2], goop: 2 }));
    assert_eq!(guilder, Some(Occupied { player: Player(1), outflows: vec![], goop: 1 }));

    // The same thing happens even if Florin invades with its last unit of goop.
    florin.as_mut().unwrap().goop = 1;
    guilder = Some(Occupied { player: Player(2), outflows: vec![1], goop: 0 });
    assert_eq!(simulate_flow(&mut florin, &mut guilder), true);
    assert_eq!(florin, Some(Occupied { player: Player(1), outflows: vec![2], goop: 0 }));
    assert_eq!(guilder, Some(Occupied { player: Player(1), outflows: vec![], goop: 1 }));
}

#[test]
fn test_attack_occupied_cell() {
    // Florin can attack Guilder when both cells have positive amounts of goop.
    let mut florin = Some(Occupied { player: Player(1), outflows: vec![2], goop: 2 });
    let mut guilder = Some(Occupied { player: Player(2), outflows: vec![1], goop: 2 });

    assert_eq!(simulate_flow(&mut florin, &mut guilder), true);
    // In this case, the outcome is that one unit of Player 1 goop flows into
    // Guilder, *cancelling out* one unit of Player 2 goop. Again, Guilder's
    // `.outflows` field is cleared.
    assert_eq!(florin, Some(Occupied { player: Player(1), outflows: vec![2], goop: 1 }));
    assert_eq!(guilder, Some(Occupied { player: Player(2), outflows: vec![], goop: 1 }));

    // Now Player 2 quickly clicks on the boundary, populating `.outflows`
    // again, in an attempt to counter-attack.
    guilder.as_mut().unwrap().outflows = vec![1];

    // In the next tick of the game, the same thing happens again. This time,
    // Guilder is reduced to 0 goop, so the attacker (Player 1) is considered
    // victorious and gains control.
    assert_eq!(simulate_flow(&mut florin, &mut guilder), true);
    assert_eq!(florin, Some(Occupied { player: Player(1), outflows: vec![2], goop: 0 }));
    assert_eq!(guilder, Some(Occupied { player: Player(1), outflows: vec![], goop: 0 }));
}

#[test]
fn test_attack_occupied_cell_losing() {
    // Florin is again attacking Guilder, but this time it's a losing battle.
    let mut florin = Some(Occupied { player: Player(1), outflows: vec![2], goop: 1 });
    let mut guilder = Some(Occupied { player: Player(2), outflows: vec![1], goop: MAX_GOOP });

    // This still counts as an attack, and Guilder's outflows are still inhibited.
    assert_eq!(simulate_flow(&mut florin, &mut guilder), true);
    assert_eq!(florin, Some(Occupied { player: Player(1), outflows: vec![2], goop: 0 }));
    assert_eq!(guilder, Some(Occupied { player: Player(2), outflows: vec![], goop: MAX_GOOP - 1 }));
}
