use luma::wayland::capabilities::{analyze, count, max_version, Capabilities, Global};
use wayland_client::{protocol, Proxy};
use wayland_protocols::ext::session_lock::v1::client::ext_session_lock_manager_v1::ExtSessionLockManagerV1;

fn global(interface: &str, version: u32) -> Global {
    Global {
        name: 1,
        interface: interface.to_owned(),
        version,
    }
}

#[test]
fn recognizes_complete_lock_foundation() {
    let globals = vec![
        global(ExtSessionLockManagerV1::interface().name, 1),
        global(protocol::wl_compositor::WlCompositor::interface().name, 6),
        global(protocol::wl_shm::WlShm::interface().name, 1),
        global(protocol::wl_output::WlOutput::interface().name, 4),
        global(protocol::wl_seat::WlSeat::interface().name, 9),
    ];

    let capabilities = analyze(&globals);

    assert!(capabilities.supports_lock_foundation());
    assert_eq!(capabilities.output_count, 1);
    assert_eq!(capabilities.seat_count, 1);
    assert!(capabilities.missing_requirements().is_empty());
}

#[test]
fn reports_missing_lock_protocol() {
    let globals = vec![
        global(protocol::wl_compositor::WlCompositor::interface().name, 6),
        global(protocol::wl_shm::WlShm::interface().name, 1),
        global(protocol::wl_output::WlOutput::interface().name, 4),
    ];

    let capabilities = analyze(&globals);

    assert!(!capabilities.supports_lock_foundation());
    assert_eq!(
        capabilities.missing_requirements(),
        ["ext_session_lock_manager_v1"]
    );
}

#[test]
fn counts_multiple_outputs() {
    let globals = vec![
        global(protocol::wl_output::WlOutput::interface().name, 4),
        global(protocol::wl_output::WlOutput::interface().name, 4),
    ];

    assert_eq!(analyze(&globals).output_count, 2);
}

#[test]
fn reports_every_missing_requirement_in_order() {
    let capabilities = analyze(&[]);
    assert_eq!(
        capabilities,
        Capabilities {
            session_lock_version: None,
            compositor_version: None,
            shm_version: None,
            output_count: 0,
            seat_count: 0,
        }
    );
    assert_eq!(
        capabilities.missing_requirements(),
        ["ext_session_lock_manager_v1", "wl_compositor", "wl_shm", "wl_output"]
    );
}

#[test]
fn keeps_the_highest_advertised_version() {
    let globals = vec![
        global("wl_compositor", 4),
        global("wl_compositor", 6),
        global("wl_compositor", 5),
        global("wl_shm", 1),
    ];
    assert_eq!(max_version(&globals, "wl_compositor"), Some(6));
    assert_eq!(max_version(&globals, "wl_seat"), None);
    assert_eq!(count(&globals, "wl_compositor"), 3);
    assert_eq!(count(&globals, "wl_compositor_extra"), 0);
}
