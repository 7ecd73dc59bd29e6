use ac_rust_orderbook::order::Order;
use ac_rust_orderbook::orderbook::OrderBook;
use ac_rust_orderbook::types::{OrderType, Price, Side};

#[test]
fn add_buy_order_same_price() {
    let mut orderbook = OrderBook::new();
    let order1 = Order::new(1, OrderType::GTC, 100, Price(100), Side::Buy);
    let order2 = Order::new(2, OrderType::GTC, 150, Price(100), Side::Buy);
    orderbook.add_order(order1);
    orderbook.add_order(order2);

    assert_eq!(orderbook.bids.price_map.get(&100).unwrap().0.len(), 2);
    assert_eq!(orderbook.bids.price_map.get(&100).unwrap().peek().unwrap(), &1);
    assert_eq!(orderbook.bids.price_map.len(), 1);
}

#[test]
fn add_buy_order_diff_price() {
    let mut orderbook = OrderBook::new();
    let order1 = Order::new(1, OrderType::GTC, 100, Price(100), Side::Buy);
    let order2 = Order::new(2, OrderType::GTC, 150, Price(120), Side::Buy);
    orderbook.add_order(order1);
    orderbook.add_order(order2);

    assert_eq!(orderbook.bids.price_map.get(&100).unwrap().0.len(), 1);
    assert_eq!(orderbook.bids.price_map.get(&100).unwrap().peek().unwrap(), &1);
    assert_eq!(orderbook.bids.price_map.len(), 2);
}

#[test]
fn add_sell_order_same_price() {
    let mut orderbook = OrderBook::new();
    let order1 = Order::new(1, OrderType::GTC, 100, Price(100), Side::Sell);
    let order2 = Order::new(2, OrderType::GTC, 150, Price(100), Side::Sell);
    orderbook.add_order(order1);
    orderbook.add_order(order2);

    assert_eq!(orderbook.asks.price_map.get(&100).unwrap().0.len(), 2);
    assert_eq!(orderbook.asks.price_map.get(&100).unwrap().peek().unwrap(), &1);
    assert_eq!(orderbook.asks.price_map.len(), 1);
}

#[test]
fn add_sell_order_diff_price() {
    let mut orderbook = OrderBook::new();
    let order1 = Order::new(1, OrderType::GTC, 100, Price(100), Side::Sell);
    let order2 = Order::new(2, OrderType::GTC, 150, Price(120), Side::Sell);
    orderbook.add_order(order1);
    orderbook.add_order(order2);

    assert_eq!(orderbook.asks.price_map.get(&100).unwrap().0.len(), 1);
    assert_eq!(orderbook.asks.price_map.get(&100).unwrap().peek().unwrap(), &1);
    assert_eq!(orderbook.asks.price_map.len(), 2);
}

#[test]
fn cancel_buy_order() {
    let mut orderbook = OrderBook::new();
    let order1 = Order::new(1, OrderType::GTC, 100, Price(100), Side::Buy);
    let order2 = Order::new(2, OrderType::GTC, 150, Price(100), Side::Buy);
    orderbook.add_order(order1);
    orderbook.add_order(order2);

    orderbook.cancel_order(1);

    assert_eq!(orderbook.bids.price_map.get(&100).unwrap().0.len(), 1);
    assert_eq!(orderbook.bids.price_map.get(&100).unwrap().peek().unwrap(), &2);
    assert_eq!(orderbook.bids.price_map.len(), 1);
}

#[test]
fn cancel_sell_order() {
    let mut orderbook = OrderBook::new();
    let order1 = Order::new(1, OrderType::GTC, 100, Price(100), Side::Sell);
    let order2 = Order::new(2, OrderType::GTC, 150, Price(100), Side::Sell);
    orderbook.add_order(order1);
    orderbook.add_order(order2);

    orderbook.cancel_order(1);

    assert_eq!(orderbook.asks.price_map.get(&100).unwrap().0.len(), 1);
    assert_eq!(orderbook.asks.price_map.get(&100).unwrap().peek().unwrap(), &2);
    assert_eq!(orderbook.asks.price_map.len(), 1);
}

#[test]
fn clean_empty_bid() {
    let mut orderbook = OrderBook::new();
    let order1 = Order::new(1, OrderType::GTC, 100, Price(100), Side::Buy);
    let order2 = Order::new(2, OrderType::GTC, 150, Price(120), Side::Buy);
    let order3 = Order::new(3, OrderType::GTC, 200, Price(90), Side::Buy);
    orderbook.add_order(order1);
    orderbook.add_order(order2);
    orderbook.add_order(order3);

    orderbook.cancel_order(1);

    assert_eq!(orderbook.bids.tree.len(), 3);
    orderbook.clean_empty_bid();
    assert_eq!(orderbook.bids.tree.len(), 3);
    let _ = orderbook.bids.tree.pop();
    orderbook.clean_empty_bid();
    assert_eq!(orderbook.bids.tree.len(), 1);
}

#[test]
fn match_order_test() {
    let mut orderbook = OrderBook::new();
    let order1 = Order::new(1, OrderType::GTC, 100, Price(100), Side::Buy);
    let order2 = Order::new(2, OrderType::GTC, 150, Price(100), Side::Sell);
    orderbook.add_order(order1);
    orderbook.add_order(order2);
    orderbook.match_order(order1, order2);
    assert_eq!(orderbook.trades.len(), 1);
    assert_eq!(orderbook.trades.get(&(1, 2)).unwrap().quantity, 100);
    assert_eq!(orderbook.buy_volume, 0);
    assert_eq!(orderbook.sell_volume, 50);
    assert_eq!(orderbook.bids.tree.len(), 1); // the emptied bid is not cleaned yet
    assert_eq!(orderbook.asks.tree.len(), 1);

    let order3 = Order::new(3, OrderType::GTC, 50, Price(100), Side::Buy);
    orderbook.add_order(order3);
    orderbook.match_order(order3, order2);
    assert_eq!(orderbook.trades.len(), 2);
    assert_eq!(orderbook.trades.get(&(3, 2)).unwrap().quantity, 50);
    assert_eq!(orderbook.buy_volume, 0);
    assert_eq!(orderbook.sell_volume, 0);
    assert_eq!(orderbook.bids.tree.len(), 2); // the emptied bids are not cleaned yet
    assert_eq!(orderbook.asks.tree.len(), 1); // nor is the emptied ask
}

#[test]
fn place_gtc_order_and_match() {
    let mut orderbook = OrderBook::new();
    let order1 = Order::new(1, OrderType::GTC, 100, Price(110), Side::Buy);
    let order2 = Order::new(2, OrderType::GTC, 150, Price(100), Side::Sell);

    let result = orderbook.place_order(order1);
    assert_eq!(result, false);
    let result = orderbook.place_order(order2);
    assert_eq!(result, true);

    assert_eq!(orderbook.trades.len(), 1);
    assert_eq!(orderbook.trades.get(&(1, 2)).unwrap().quantity, 100);
    assert_eq!(orderbook.trades.get(&(1, 2)).unwrap().price, Price(110));
    assert_eq!(orderbook.buy_volume, 0);
    assert_eq!(orderbook.sell_volume, 50);
    assert_eq!(orderbook.bids.tree.len(), 0);
    // the remainder of the sell order rests at 100
    assert_eq!(orderbook.asks.tree.len(), 1);
}

#[test]
fn empty_book_has_no_best_prices() {
    let orderbook = OrderBook::new();
    assert_eq!(orderbook.get_bid(), None);
    assert_eq!(orderbook.get_ask(), None);
    assert_eq!(orderbook.buy_volume, 0);
    assert_eq!(orderbook.sell_volume, 0);
    assert_eq!(orderbook.trades.len(), 0);
}

#[test]
fn two_buys_at_one_price_share_a_level() {
    let mut orderbook = OrderBook::new();
    orderbook.add_order(Order::new(1, OrderType::GTC, 100, Price(50), Side::Buy));
    orderbook.add_order(Order::new(2, OrderType::GTC, 150, Price(50), Side::Buy));
    let level = orderbook.bids.price_map.get(&50).unwrap();
    assert_eq!(level.len(), 2);
    assert_eq!(level.peek(), Some(&1));
    assert_eq!(orderbook.bids.price_map.len(), 1);
    assert_eq!(orderbook.buy_volume, 250);
    assert_eq!(orderbook.get_bid(), Some(&Price(50)));
}

#[test]
fn buy_crossing_resting_sell_leaves_sell_remainder() {
    let mut orderbook = OrderBook::new();
    assert!(!orderbook.place_order(Order::new(2, OrderType::GTC, 150, Price(100), Side::Sell)));
    assert!(orderbook.place_order(Order::new(1, OrderType::GTC, 100, Price(110), Side::Buy)));
    assert_eq!(orderbook.trades.len(), 1);
    let trade = orderbook.trades.get(&(1, 2)).unwrap();
    assert_eq!(trade.quantity, 100);
    assert_eq!(trade.price, Price(110));
    assert_eq!(trade.buy_order.id, 1);
    assert_eq!(trade.sell_order.quantity, 150);
    let rest = orderbook.asks.orders.get(&2).unwrap();
    assert_eq!(rest.quantity, 50);
    assert_eq!(rest.price, Price(100));
    assert!(orderbook.bids.orders.get(&1).is_none());
    assert_eq!(orderbook.get_ask(), Some(&Price(100)));
    assert_eq!(orderbook.get_bid(), None);
    assert_eq!(orderbook.buy_volume, 0);
    assert_eq!(orderbook.sell_volume, 50);
}

#[test]
fn buy_larger_than_resting_sell_rests_its_remainder() {
    let mut orderbook = OrderBook::new();
    orderbook.place_order(Order::new(2, OrderType::GTC, 40, Price(100), Side::Sell));
    assert!(orderbook.place_order(Order::new(1, OrderType::GTC, 100, Price(105), Side::Buy)));
    assert_eq!(orderbook.trades.get(&(1, 2)).unwrap().quantity, 40);
    assert_eq!(orderbook.trades.get(&(1, 2)).unwrap().price, Price(105));
    assert_eq!(orderbook.bids.orders.get(&1).unwrap().quantity, 60);
    assert!(orderbook.asks.orders.get(&2).is_none());
    assert_eq!(orderbook.get_bid(), Some(&Price(105)));
    assert_eq!(orderbook.get_ask(), None);
    assert_eq!(orderbook.buy_volume, 60);
    assert_eq!(orderbook.sell_volume, 0);
}

#[test]
fn buy_below_best_ask_rests() {
    let mut orderbook = OrderBook::new();
    orderbook.place_order(Order::new(2, OrderType::GTC, 40, Price(100), Side::Sell));
    assert!(!orderbook.place_order(Order::new(1, OrderType::GTC, 10, Price(99), Side::Buy)));
    assert_eq!(orderbook.trades.len(), 0);
    assert_eq!(orderbook.get_bid(), Some(&Price(99)));
    assert_eq!(orderbook.get_ask(), Some(&Price(100)));
    assert_eq!(orderbook.buy_volume, 10);
    assert_eq!(orderbook.sell_volume, 40);
}

#[test]
fn equal_quantities_remove_both_orders() {
    let mut orderbook = OrderBook::new();
    let buy = Order::new(1, OrderType::GTC, 70, Price(100), Side::Buy);
    let sell = Order::new(2, OrderType::GTC, 70, Price(90), Side::Sell);
    orderbook.add_order(buy);
    orderbook.add_order(sell);
    let rem = orderbook.match_order(buy, sell);
    assert_eq!(rem, None);
    assert!(orderbook.bids.orders.get(&1).is_none());
    assert!(orderbook.asks.orders.get(&2).is_none());
    let trade = orderbook.trades.get(&(1, 2)).unwrap();
    assert_eq!(trade.quantity, 70);
    assert_eq!(trade.price, Price(100));
    assert_eq!(orderbook.buy_volume, 0);
    assert_eq!(orderbook.sell_volume, 0);
}

#[test]
fn match_returns_reduced_larger_order() {
    let mut orderbook = OrderBook::new();
    let buy = Order::new(1, OrderType::GTC, 30, Price(100), Side::Buy);
    let sell = Order::new(2, OrderType::GTC, 80, Price(95), Side::Sell);
    orderbook.add_order(buy);
    orderbook.add_order(sell);
    let rem = orderbook.match_order(buy, sell).unwrap();
    assert_eq!(rem, Order::new(2, OrderType::GTC, 50, Price(95), Side::Sell));
    assert!(orderbook.bids.orders.get(&1).is_none());
    assert_eq!(orderbook.trades.get(&(1, 2)).unwrap().price, Price(100));
}

#[test]
fn rematching_a_pair_overwrites_its_trade() {
    let mut orderbook = OrderBook::new();
    orderbook.place_order(Order::new(2, OrderType::GTC, 80, Price(95), Side::Sell));
    assert!(orderbook.place_order(Order::new(1, OrderType::GTC, 30, Price(100), Side::Buy)));
    assert_eq!(orderbook.trades.get(&(1, 2)).unwrap().quantity, 30);
    // buy order 1 was filled completely, so its id is free again
    assert!(orderbook.place_order(Order::new(1, OrderType::GTC, 20, Price(101), Side::Buy)));
    assert_eq!(orderbook.trades.len(), 1);
    assert_eq!(orderbook.trades.get(&(1, 2)).unwrap().quantity, 20);
    assert_eq!(orderbook.trades.get(&(1, 2)).unwrap().price, Price(101));
    assert_eq!(orderbook.asks.orders.get(&2).unwrap().quantity, 30);
}

#[test]
fn cancel_unknown_id_changes_nothing() {
    let mut orderbook = OrderBook::new();
    orderbook.add_order(Order::new(1, OrderType::GTC, 100, Price(100), Side::Buy));
    assert!(!orderbook.cancel_order(9));
    assert_eq!(orderbook.buy_volume, 100);
    assert_eq!(orderbook.bids.price_map.get(&100).unwrap().len(), 1);
    assert_eq!(orderbook.bids.tree.len(), 1);
    assert_eq!(orderbook.trades.len(), 0);
}

#[test]
fn insert_then_cancel_restores_volume() {
    let mut orderbook = OrderBook::new();
    orderbook.add_order(Order::new(1, OrderType::GTC, 100, Price(100), Side::Sell));
    orderbook.add_order(Order::new(2, OrderType::GTC, 40, Price(100), Side::Sell));
    assert_eq!(orderbook.sell_volume, 140);
    assert!(orderbook.cancel_order(2));
    assert_eq!(orderbook.sell_volume, 100);
    let level = orderbook.asks.price_map.get(&100).unwrap();
    assert_eq!(level.len(), 1);
    assert_eq!(level.peek(), Some(&1));
}

#[test]
fn cancel_first_of_two_at_one_price() {
    let mut orderbook = OrderBook::new();
    orderbook.add_order(Order::new(1, OrderType::GTC, 100, Price(100), Side::Buy));
    orderbook.add_order(Order::new(2, OrderType::GTC, 150, Price(100), Side::Buy));
    assert!(orderbook.cancel_order(1));
    let level = orderbook.bids.price_map.get(&100).unwrap();
    assert_eq!(level.len(), 1);
    assert_eq!(level.peek(), Some(&2));
    assert_eq!(orderbook.buy_volume, 150);
}

#[test]
fn canceled_top_is_reported_until_a_match_cleans_it() {
    let mut orderbook = OrderBook::new();
    orderbook.add_order(Order::new(1, OrderType::GTC, 10, Price(100), Side::Sell));
    orderbook.add_order(Order::new(2, OrderType::GTC, 10, Price(105), Side::Sell));
    assert!(orderbook.cancel_order(1));
    assert_eq!(orderbook.get_ask(), Some(&Price(100)));
    // the stale top is skipped: a buy at 102 does not reach the live ask at 105
    assert!(!orderbook.place_order(Order::new(3, OrderType::GTC, 5, Price(102), Side::Buy)));
    assert_eq!(orderbook.get_ask(), Some(&Price(105)));
    assert!(orderbook.place_order(Order::new(4, OrderType::GTC, 5, Price(105), Side::Buy)));
    assert_eq!(orderbook.trades.get(&(4, 2)).unwrap().quantity, 5);
}

#[test]
fn other_order_kinds_are_left_alone() {
    let mut orderbook = OrderBook::new();
    orderbook.place_order(Order::new(2, OrderType::GTC, 100, Price(100), Side::Sell));
    for kind in [OrderType::Market, OrderType::IOC, OrderType::FOK] {
        assert!(!orderbook.place_order(Order::new(1, kind, 100, Price(100), Side::Buy)));
    }
    assert_eq!(orderbook.trades.len(), 0);
    assert_eq!(orderbook.buy_volume, 0);
    assert_eq!(orderbook.sell_volume, 100);
    assert!(orderbook.bids.orders.get(&1).is_none());
}

#[test]
fn order_out_of_reach_leaves_stale_top_alone() {
    let mut orderbook = OrderBook::new();
    orderbook.add_order(Order::new(1, OrderType::GTC, 10, Price(100), Side::Sell));
    orderbook.add_order(Order::new(2, OrderType::GTC, 10, Price(105), Side::Sell));
    assert!(orderbook.cancel_order(1));
    assert!(!orderbook.place_order(Order::new(3, OrderType::GTC, 5, Price(99), Side::Buy)));
    assert_eq!(orderbook.asks.tree.len(), 2);
    assert_eq!(orderbook.get_ask(), Some(&Price(100)));

    orderbook.add_order(Order::new(4, OrderType::GTC, 10, Price(95), Side::Buy));
    orderbook.add_order(Order::new(5, OrderType::GTC, 10, Price(100), Side::Buy));
    assert!(orderbook.cancel_order(5));
    assert!(!orderbook.place_order(Order::new(6, OrderType::GTC, 5, Price(106), Side::Sell)));
    assert_eq!(orderbook.bids.tree.len(), 3);
    assert_eq!(orderbook.get_bid(), Some(&Price(100)));
}

#[test]
fn new_book_has_no_price_levels() {
    let orderbook = OrderBook::new();
    assert_eq!(orderbook.bids.price_map.len(), 0);
    assert_eq!(orderbook.asks.price_map.len(), 0);
    assert_eq!(orderbook.bids.tree.len(), 0);
    assert_eq!(orderbook.asks.tree.len(), 0);
}
