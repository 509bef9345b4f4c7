use gridcore::mapper::NetworkMapping;

#[test]
fn add_writes_both_directions() {
    let mut m = NetworkMapping::new();
    m.add(7, 1000);
    m.add(8, 2000);
    assert_eq!(m.get_server(7), Some(1000));
    assert_eq!(m.get_server(8), Some(2000));
    assert_eq!(m.get_client(1000), Some(7));
    assert_eq!(m.get_client(2000), Some(8));
    assert!(m.contains_server(1000));
    assert!(!m.contains_server(3000));
    assert_eq!(m.get_server(9), None);
    assert_eq!(m.get_client(9), None);
}

#[test]
fn remove_by_server_clears_both_directions() {
    let mut m = NetworkMapping::new();
    m.add(7, 1000);
    m.add(8, 2000);
    let removed = m.remove_by_server(1000);
    assert_eq!(removed, Some(7));
    // after a despawn, neither direction resolves
    assert_eq!(m.get_client(1000), None);
    assert_eq!(m.get_server(7), None);
    // the other pair is untouched
    assert_eq!(m.get_client(2000), Some(8));
    assert_eq!(m.get_server(8), Some(2000));
    assert_eq!(m.remove_by_server(1000), None);
}

#[test]
fn remove_by_client_clears_both_directions() {
    let mut m = NetworkMapping::new();
    m.add(7, 1000);
    let removed = m.remove_by_client(7);
    assert_eq!(removed, Some(1000));
    assert_eq!(m.get_server(7), None);
    assert_eq!(m.get_client(1000), None);
    assert_eq!(m.remove_by_client(7), None);
}
