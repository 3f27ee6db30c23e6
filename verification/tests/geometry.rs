use herdr::endpoint::{ClientEndpointId, EndpointSet};
use herdr::geometry::{contains, Rect};

fn remote(name: &str) -> ClientEndpointId {
    ClientEndpointId::Remote(name.to_string())
}

#[test]
fn an_area_holds_its_first_cell_and_not_the_one_behind_its_last() {
    let area = Rect { x: 2, y: 3, width: 4, height: 2 };
    for (point, inside) in [
        ((2, 3), true),
        ((5, 4), true),
        ((6, 4), false),
        ((5, 5), false),
        ((1, 3), false),
        ((2, 2), false),
    ] {
        assert_eq!(contains(area, point), inside, "{point:?}");
    }
}

#[test]
fn an_area_at_the_edge_of_the_screen_stops_there() {
    let area = Rect { x: 65_530, y: 65_530, width: 100, height: 100 };
    assert!(contains(area, (65_534, 65_534)));
    assert!(!contains(area, (65_535, 65_534)));
    assert!(!contains(area, (65_534, 65_535)));
}

#[test]
fn a_blank_area_holds_nothing() {
    for area in [
        Rect { x: 1, y: 1, width: 0, height: 9 },
        Rect { x: 1, y: 1, width: 9, height: 0 },
    ] {
        assert!(area.is_blank());
        assert!(!contains(area, (1, 1)));
    }
    assert!(!Rect { x: 1, y: 1, width: 1, height: 1 }.is_blank());
}

#[test]
fn endpoints_are_told_apart_by_name() {
    assert!(ClientEndpointId::Local.is_local());
    assert!(!remote("a").is_local());
    assert!(remote("a").same(&remote("a")));
    assert!(!remote("a").same(&remote("b")));
    assert!(!remote("a").same(&ClientEndpointId::Local));
    assert!(ClientEndpointId::Local.same(&ClientEndpointId::Local));
}

#[test]
fn a_set_holds_each_endpoint_once() {
    let mut set = EndpointSet::new();
    assert!(!set.contains(&remote("a")));
    assert!(set.insert(remote("a")));
    assert!(!set.insert(remote("a")));
    assert!(set.insert(ClientEndpointId::Local));
    assert!(set.contains(&remote("a")));
    assert!(set.remove(&remote("a")));
    assert!(!set.contains(&remote("a")));
    assert!(!set.remove(&remote("a")));
    assert!(set.contains(&ClientEndpointId::Local));
}
