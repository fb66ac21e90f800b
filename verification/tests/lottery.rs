use wager_rounds::lottery::{LotteryError, LotteryState, RoundStatus, WinnerPool};

const ALICE: u64 = 7;
const BOB: u64 = 8;

#[test]
fn end_to_end_round() {
    let mut s = LotteryState::new();

    // create a round at ticket price 10
    let id = s.create_lottery_round(10, 1_000);
    assert_eq!(id, 1);
    assert_eq!(s.get_active_round(), Some(1));
    assert_eq!(s.get_current_ticket_price(), 10);

    // 25 units buy 2 tickets (#1..#2); the remainder 5 stays in the pool
    let p1 = s.purchase_tickets(ALICE, 25, None).unwrap();
    assert_eq!(p1.first_ticket, 1);
    assert_eq!(p1.last_ticket, 2);
    assert_eq!(p1.total_tickets, 2);
    assert_eq!(p1.amount_paid, 25);
    assert_eq!(s.get_round(1).unwrap().prize_pool, 25);

    // 40 more units by a second owner buy 4 tickets (#3..#6)
    let p2 = s.purchase_tickets(BOB, 40, None).unwrap();
    assert_eq!(p2.first_ticket, 3);
    assert_eq!(p2.last_ticket, 6);
    assert_eq!(p2.total_tickets, 4);

    let round = s.get_round(1).unwrap();
    assert_eq!(round.total_tickets_sold, 6);
    assert_eq!(round.next_ticket_number, 7);
    assert_eq!(round.prize_pool, 65);

    // six tickets meet the minimum of four; every tier quota floors to
    // zero and is forced up to one winner
    let closed = s.close_lottery_round(2_000).unwrap();
    assert_eq!(closed, 1);
    let round = s.get_round(1).unwrap();
    assert_eq!(round.status, RoundStatus::Closed);
    assert_eq!(round.pool1_count, 1);
    assert_eq!(round.pool2_count, 1);
    assert_eq!(round.pool3_count, 1);
    assert_eq!(round.pool4_count, 1);
    assert_eq!(round.current_winner_pool, WinnerPool::Pool1);
    assert_eq!(s.get_active_round(), None);

    // four draws: one winner per tier, in order, no ticket twice
    let expected_pools = [
        WinnerPool::Pool1,
        WinnerPool::Pool2,
        WinnerPool::Pool3,
        WinnerPool::Pool4,
    ];
    // 20%, 25%, 30%, 25% of the pool of 65, one winner each
    let expected_prizes: [u128; 4] = [13, 16, 19, 16];
    let mut drawn: Vec<u64> = Vec::new();
    for k in 0..4 {
        let out = s.generate_winner(123_456 + k as u64, 1, 3_000, 10).unwrap();
        assert_eq!(out.round_id, 1);
        assert_eq!(out.pool, expected_pools[k]);
        assert_eq!(out.prize_amount, expected_prizes[k]);
        assert!(out.ticket_number >= 1 && out.ticket_number <= 6);
        assert!(!drawn.contains(&out.ticket_number), "a ticket won twice");
        drawn.push(out.ticket_number);
        let owner = if out.ticket_number <= 2 { ALICE } else { BOB };
        assert_eq!(out.owner, owner);
        assert_eq!(out.new_round_created, k == 3);
    }

    // the seed determines the selection exactly: seeds 123456..123459
    // modulo six tickets pick tickets 1 through 4 in turn
    assert_eq!(drawn, vec![1, 2, 3, 4]);

    // the round is complete and a successor opened at the default price
    let round = s.get_round(1).unwrap();
    assert_eq!(round.status, RoundStatus::Complete);
    assert_eq!(round.current_winner_pool, WinnerPool::Complete);
    assert_eq!(s.get_active_round(), Some(2));
    assert_eq!(s.get_round(2).unwrap().ticket_price, 10);

    // all four winners are on record
    let winners = s.get_round_winners(1);
    assert_eq!(winners.len(), 4);
    let total_disbursed: u128 = winners.iter().map(|w| w.prize_amount).sum();
    assert!(total_disbursed <= 65);
    assert_eq!(total_disbursed, 13 + 16 + 19 + 16);
}

#[test]
fn lottery_idempotent_read() {
    let mut s = LotteryState::new();
    let _ = s.create_lottery_round(10, 1_000);
    let _ = s.purchase_tickets(ALICE, 100, Some(42));
    let r1 = s.get_round(1);
    let r2 = s.get_round(1);
    assert_eq!(r1, r2);
    let missing1 = s.get_round(99);
    let missing2 = s.get_round(99);
    assert_eq!(missing1, None);
    assert_eq!(missing2, None);
}

#[test]
fn close_needs_participation() {
    let mut s = LotteryState::new();
    let _ = s.create_lottery_round(10, 1_000);
    let _ = s.purchase_tickets(ALICE, 30, None).unwrap();
    assert_eq!(
        s.close_lottery_round(2_000),
        Err(LotteryError::InsufficientParticipation)
    );
}

#[test]
fn purchase_errors() {
    let mut s = LotteryState::new();
    assert_eq!(
        s.purchase_tickets(ALICE, 25, None),
        Err(LotteryError::NoActiveRound)
    );

    let _ = s.create_lottery_round(10, 1_000);
    assert_eq!(
        s.purchase_tickets(ALICE, 5, None),
        Err(LotteryError::AmountTooSmall)
    );
    assert_eq!(
        s.purchase_tickets_with_balance(ALICE, 25, 20, None),
        Err(LotteryError::InsufficientBalance)
    );
    assert!(s.purchase_tickets_with_balance(ALICE, 25, 25, None).is_ok());
}

#[test]
fn zero_price_round_rejects_purchases() {
    let mut s = LotteryState::new();
    let _ = s.create_lottery_round(0, 1_000);
    assert_eq!(
        s.purchase_tickets(ALICE, 25, None),
        Err(LotteryError::InvalidTicketPrice)
    );
}

#[test]
fn close_without_round() {
    let mut s = LotteryState::new();
    assert_eq!(s.close_lottery_round(1_000), Err(LotteryError::NoActiveRound));
}

#[test]
fn draw_errors() {
    let mut s = LotteryState::new();
    let _ = s.create_lottery_round(10, 1_000);
    let _ = s.purchase_tickets(ALICE, 60, None).unwrap();
    let _ = s.close_lottery_round(2_000).unwrap();
    assert_eq!(
        s.generate_winner(1, 99, 3_000, 10),
        Err(LotteryError::RoundNotFound)
    );
    // complete the round, then drawing again is refused
    for k in 0..4 {
        let _ = s.generate_winner(k, 1, 3_000, 10).unwrap();
    }
    assert_eq!(
        s.generate_winner(5, 1, 3_000, 10),
        Err(LotteryError::RoundNotClosed)
    );
}

#[test]
fn purchases_merge_per_owner() {
    let mut s = LotteryState::new();
    let _ = s.create_lottery_round(10, 1_000);
    let _ = s.purchase_tickets(ALICE, 20, None).unwrap();
    let merged = s.purchase_tickets(ALICE, 30, Some(5)).unwrap();
    assert_eq!(merged.first_ticket, 1);
    assert_eq!(merged.last_ticket, 5);
    assert_eq!(merged.total_tickets, 5);
    assert_eq!(merged.amount_paid, 50);
    assert_eq!(merged.source_chain_id, Some(5));

    // the merged record is what queries report, once per owner
    let records = s.get_round_ticket_purchases(1);
    assert_eq!(records.len(), 1);
    assert_eq!(records[0], merged);
    assert_eq!(s.get_user_tickets(1, ALICE), Some(merged));
    assert_eq!(s.get_user_tickets(1, BOB), None);
}

#[test]
fn winner_settlement_flag() {
    let mut s = LotteryState::new();
    let _ = s.create_lottery_round(10, 1_000);
    let _ = s.purchase_tickets(ALICE, 60, Some(3)).unwrap();
    let _ = s.close_lottery_round(2_000).unwrap();
    let out = s.generate_winner(77, 1, 3_000, 10).unwrap();
    assert_eq!(out.source_chain_id, Some(3));

    let winners = s.get_round_winners(1);
    assert_eq!(winners.len(), 1);
    assert!(!winners[0].claimed);

    s.mark_prize_claimed(1, out.ticket_number).unwrap();
    let winners = s.get_round_winners(1);
    assert!(winners[0].claimed);

    assert_eq!(
        s.mark_prize_claimed(1, 9_999),
        Err(LotteryError::WinnerNotFound)
    );
    assert_eq!(
        s.mark_prize_claimed(42, 1),
        Err(LotteryError::RoundNotFound)
    );
}

#[test]
fn bounded_history_purges_old_rounds() {
    let mut s = LotteryState::new();
    let _ = s.create_lottery_round(10, 0);
    // run five full rounds; each completion creates the successor
    for cycle in 0..5u64 {
        let round_id = cycle + 1;
        let _ = s.purchase_tickets(ALICE, 60, None).unwrap();
        let _ = s.close_lottery_round(100 * round_id).unwrap();
        for k in 0..4 {
            let _ = s.generate_winner(round_id * 31 + k, round_id, 100 * round_id + 1, 10)
                .unwrap();
        }
    }
    // round 6 is active; its creation purged round 1
    assert_eq!(s.get_active_round(), Some(6));
    assert!(s.get_round(1).is_none());
    assert!(s.get_round(2).is_some());
    assert_eq!(s.get_all_rounds().len(), 5);
}
