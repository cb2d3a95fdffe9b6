use cw_governance::addr::{Addr, AddrSet};
use cw_governance::order::{rank_str, Rank};

#[test]
fn rank_str_orders_by_bytes() {
    assert_eq!(rank_str("bar", "foo"), Rank::Before);
    assert_eq!(rank_str("foo", "foo"), Rank::Same);
    assert_eq!(rank_str("foo", "fo"), Rank::After);
    assert_eq!(rank_str("", "a"), Rank::Before);
}

#[test]
fn addr_set_pages_in_both_directions() {
    let mut set = AddrSet::new();
    assert!(set.insert(Addr::unchecked("b")));
    assert!(set.insert(Addr::unchecked("a")));
    assert!(set.insert(Addr::unchecked("c")));
    assert!(!set.insert(Addr::unchecked("a")));
    assert_eq!(set.len(), 3);
    let up = set.page(None, false, None, false);
    assert_eq!(up, vec![Addr::unchecked("a"), Addr::unchecked("b"), Addr::unchecked("c")]);
    let down = set.page(Some("c"), false, Some(1), true);
    assert_eq!(down, vec![Addr::unchecked("b")]);
}
