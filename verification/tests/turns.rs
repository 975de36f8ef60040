use std::collections::VecDeque;
use war::deck::{Card, CardSuit, CardValue};
use war::{Player, WarCard, WarGame};

fn from_list(cards: &str) -> Player {
    let mut deck = VecDeque::new();
    for card in cards.split(", ") {
        let (val, suit) = card.split_at(card.len() - 1);
        let suit = match suit {
            "s" => CardSuit::Spades,
            "d" => CardSuit::Diamonds,
            "c" => CardSuit::Clubs,
            "h" => CardSuit::Hearts,
            _ => panic!(),
        };
        let val = match val {
            "k" => CardValue::King,
            "q" => CardValue::Queen,
            "j" => CardValue::Jack,
            "a" => CardValue::Ace,
            _ => {
                if let Ok(n) = val.parse::<u8>() {
                    CardValue::Num(n)
                } else {
                    panic!()
                }
            }
        };
        deck.push_back(WarCard(Card { val, suit }));
    }
    Player { deck }
}

#[test]
fn test_turns_work() {
    let mut game = WarGame {
        player1: from_list("ks, kh, 2s, js, 6h, 3h, 4s, 8h, 9d, 3c, 5d, kc, 10h, 7d"),
        player2: from_list("9c, as, 7c, qs, 6d, 8d, 3d, 4c, ah, 4h, 5c, qc, 10c, 2d"),
        game_over: false,
    };

    game.turn();
    let result = WarGame {
        player1: from_list("kh, 2s, js, 6h, 3h, 4s, 8h, 9d, 3c, 5d, kc, 10h, 7d, ks, 9c"),
        player2: from_list("as, 7c, qs, 6d, 8d, 3d, 4c, ah, 4h, 5c, qc, 10c, 2d"),
        game_over: false,
    };
    assert_eq!(game, result);

    // The ace of spades beats the king of hearts; the winner's own card is
    // appended before the opponent's.
    game.turn();
    let result = WarGame {
        player1: from_list("2s, js, 6h, 3h, 4s, 8h, 9d, 3c, 5d, kc, 10h, 7d, ks, 9c"),
        player2: from_list("7c, qs, 6d, 8d, 3d, 4c, ah, 4h, 5c, qc, 10c, 2d, as, kh"),
        game_over: false,
    };
    assert_eq!(game, result);

    game.turn();
    let result = WarGame {
        player1: from_list("js, 6h, 3h, 4s, 8h, 9d, 3c, 5d, kc, 10h, 7d, ks, 9c"),
        player2: from_list("qs, 6d, 8d, 3d, 4c, ah, 4h, 5c, qc, 10c, 2d, as, kh, 7c, 2s"),
        game_over: false,
    };
    assert_eq!(game, result);

    game.turn();
    let result = WarGame {
        player1: from_list("6h, 3h, 4s, 8h, 9d, 3c, 5d, kc, 10h, 7d, ks, 9c"),
        player2: from_list("6d, 8d, 3d, 4c, ah, 4h, 5c, qc, 10c, 2d, as, kh, 7c, 2s, qs, js"),
        game_over: false,
    };
    assert_eq!(game, result);

    // The sixes tie; player 1's 9 beats the ace after the war and takes the
    // eight pot cards plus both fresh cards.
    game.turn();
    let result = WarGame {
        player1: from_list("3c, 5d, kc, 10h, 7d, ks, 9c, 6h, 6d, 3h, 8d, 4s, 3d, 8h, 4c, 9d, ah"),
        player2: from_list("4h, 5c, qc, 10c, 2d, as, kh, 7c, 2s, qs, js"),
        game_over: false,
    };
    assert_eq!(game, result);

    game.turn();
    let result = WarGame {
        player1: from_list("5d, kc, 10h, 7d, ks, 9c, 6h, 6d, 3h, 8d, 4s, 3d, 8h, 4c, 9d, ah"),
        player2: from_list("5c, qc, 10c, 2d, as, kh, 7c, 2s, qs, js, 4h, 3c"),
        game_over: false,
    };
    assert_eq!(game, result);

    // The fives tie; player 2's ace beats the king after the war and takes
    // all ten cards, its own ace before the opponent's king.
    game.turn();
    let result = WarGame {
        player1: from_list("9c, 6h, 6d, 3h, 8d, 4s, 3d, 8h, 4c, 9d, ah"),
        player2: from_list(
            "kh, 7c, 2s, qs, js, 4h, 3c, 5d, 5c, kc, qc, 10h, 10c, 7d, 2d, as, ks",
        ),
        game_over: false,
    };
    assert_eq!(game, result);

    game.turn();
    let result = WarGame {
        player1: from_list("6h, 6d, 3h, 8d, 4s, 3d, 8h, 4c, 9d, ah"),
        player2: from_list(
            "7c, 2s, qs, js, 4h, 3c, 5d, 5c, kc, qc, 10h, 10c, 7d, 2d, as, ks, kh, 9c",
        ),
        game_over: false,
    };
    assert_eq!(game, result);

    game.turn();
    let result = WarGame {
        player1: from_list("6d, 3h, 8d, 4s, 3d, 8h, 4c, 9d, ah"),
        player2: from_list(
            "2s, qs, js, 4h, 3c, 5d, 5c, kc, qc, 10h, 10c, 7d, 2d, as, ks, kh, 9c, 7c, 6h",
        ),
        game_over: false,
    };
    assert_eq!(game, result);
}

#[test]
fn higher_card_takes_both() {
    // King of spades against the 9 of clubs: the king wins, and player 1's
    // pile ends up holding its own card before the opponent's.
    let mut game = WarGame {
        player1: from_list("ks, 2s"),
        player2: from_list("9c, as"),
        game_over: false,
    };
    game.turn();
    let result = WarGame {
        player1: from_list("2s, ks, 9c"),
        player2: from_list("as"),
        game_over: false,
    };
    assert_eq!(game, result);
}

#[test]
fn ace_beats_king() {
    // The one exception to the king's supremacy: an ace drawn against it wins.
    let king = WarCard(Card { suit: CardSuit::Spades, val: CardValue::King });
    let ace = WarCard(Card { suit: CardSuit::Clubs, val: CardValue::Ace });
    assert_eq!(king.partial_cmp(&ace), Some(std::cmp::Ordering::Less));
    assert_eq!(ace.partial_cmp(&king), Some(std::cmp::Ordering::Greater));
    assert!(king < ace);
    assert!(ace > king);

    let mut game = WarGame {
        player1: from_list("ks, 2s"),
        player2: from_list("ac, 3c"),
        game_over: false,
    };
    game.turn();
    let result = WarGame {
        player1: from_list("2s"),
        player2: from_list("3c, ac, ks"),
        game_over: false,
    };
    assert_eq!(game, result);
}

#[test]
fn tie_starts_a_war() {
    // Two jacks tie while both piles can stake a war: each side puts in its
    // face-up jack and three more cards, then the fresh comparison decides.
    // The queen wins it, so player 1 collects all ten cards: the eight in the
    // pot, then its own fresh card, then the opponent's.
    let mut game = WarGame {
        player1: from_list("js, 2s, 3s, 4s, qs"),
        player2: from_list("jh, 2h, 3h, 4h, 5h"),
        game_over: false,
    };
    game.turn();
    let result = WarGame {
        player1: from_list("js, jh, 2s, 2h, 3s, 3h, 4s, 4h, qs, 5h"),
        player2: Player { deck: VecDeque::new() },
        game_over: false,
    };
    assert_eq!(game, result);
}

#[test]
fn tie_without_stake_forfeits() {
    // Two jacks tie but player 1 holds only one more card: the war cannot be
    // staked, the game ends at once, and both jacks stay out of either pile.
    let mut game = WarGame {
        player1: from_list("js, 9s"),
        player2: from_list("jh, 2h, 3h, 4h, 5h"),
        game_over: false,
    };
    game.turn();
    let result = WarGame {
        player1: from_list("9s"),
        player2: from_list("2h, 3h, 4h, 5h"),
        game_over: true,
    };
    assert_eq!(game, result);
    // A finished game no longer moves.
    game.turn();
    assert_eq!(game, result);
}
