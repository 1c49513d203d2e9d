use luma::wayland::outputs::{current_mode, forget_output, record_snapshot, Mode, ModeSnapshot, OutputSnapshot};

fn snapshot(global_id: u32, name: &str) -> OutputSnapshot {
    OutputSnapshot {
        global_id,
        name: Some(name.to_owned()),
        description: None,
        logical_position: Some((0, 0)),
        logical_size: Some((1920, 1080)),
        scale_factor: 1,
        transform: "Normal".to_owned(),
        current_mode: None,
    }
}

#[test]
fn selects_current_mode() {
    let modes = vec![Mode {
        dimensions: (1920, 1080),
        refresh_rate: 60_000,
        current: true,
        preferred: true,
    }];

    assert_eq!(
        current_mode(&modes),
        Some(ModeSnapshot {
            width: 1920,
            height: 1080,
            refresh_rate_millihertz: 60_000,
        })
    );
}

#[test]
fn returns_none_without_current_mode() {
    let modes = vec![Mode {
        dimensions: (1280, 720),
        refresh_rate: 60_000,
        current: false,
        preferred: true,
    }];

    assert_eq!(current_mode(&modes), None);
}

#[test]
fn picks_the_first_current_mode() {
    let modes = vec![
        Mode { dimensions: (800, 600), refresh_rate: 50_000, current: false, preferred: false },
        Mode { dimensions: (1024, 768), refresh_rate: 75_000, current: true, preferred: false },
        Mode { dimensions: (640, 480), refresh_rate: 60_000, current: true, preferred: true },
    ];
    assert_eq!(
        current_mode(&modes),
        Some(ModeSnapshot { width: 1024, height: 768, refresh_rate_millihertz: 75_000 })
    );
}

#[test]
fn snapshots_are_updated_in_place_and_forgotten() {
    let mut snapshots = Vec::new();
    record_snapshot(&mut snapshots, snapshot(7, "DP-1"));
    record_snapshot(&mut snapshots, snapshot(9, "HDMI-A-1"));
    record_snapshot(&mut snapshots, snapshot(7, "DP-2"));

    assert_eq!(snapshots.len(), 2);
    assert_eq!(snapshots[0].name.as_deref(), Some("DP-2"));
    assert_eq!(snapshots[1].name.as_deref(), Some("HDMI-A-1"));

    forget_output(&mut snapshots, 7);
    assert_eq!(snapshots, vec![snapshot(9, "HDMI-A-1")]);
    forget_output(&mut snapshots, 3);
    assert_eq!(snapshots.len(), 1);
}
