use selftrack::session::{is_compositor_socket_name, newest_first, newest_index};

#[test]
fn wayland_socket_names() {
    assert!(is_compositor_socket_name("wayland-1"));
    assert!(is_compositor_socket_name("wayland-0"));
    assert!(!is_compositor_socket_name("wayland-1.lock"));
    assert!(!is_compositor_socket_name("wayland-1-awww-daemon.sock"));
    assert!(!is_compositor_socket_name("pipewire-0"));
    assert!(!is_compositor_socket_name(""));
}

#[test]
fn newest_entry_first_wins() {
    assert_eq!(newest_index(&vec![]), None);
    assert_eq!(newest_index(&vec![3, 9, 2, 9]), Some(1));
    assert_eq!(newest_index(&vec![-5]), Some(0));
}

#[test]
fn newest_first_is_stable() {
    assert_eq!(newest_first(&vec![3, 9, 2, 9, 3]), vec![1, 3, 0, 4, 2]);
    assert_eq!(newest_first(&vec![]), Vec::<usize>::new());
}
