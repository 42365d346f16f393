use mtrm::base::{PaneId, SplitDirection, TabId};
use mtrm::layout::LayoutTree;
use mtrm::session::{PaneSnapshot, SessionSnapshot, SessionValidationError, TabSnapshot};
use mtrm::snapshot::LayoutSnapshot;

fn single_pane_layout_snapshot(pane_id: PaneId) -> LayoutSnapshot {
    LayoutTree::new(pane_id).to_snapshot()
}

fn two_pane_layout_snapshot(first: PaneId, second: PaneId) -> LayoutSnapshot {
    let mut layout = LayoutTree::new(first);
    layout.split_focused(SplitDirection::Vertical, second);
    layout.focus_pane(first).unwrap();
    layout.to_snapshot()
}

fn pane_snapshot(id: PaneId, cwd: &str) -> PaneSnapshot {
    PaneSnapshot {
        id,
        cwd: cwd.to_string(),
        title: String::new(),
    }
}

#[test]
fn validates_single_tab_snapshot() {
    let snapshot = SessionSnapshot {
        tabs: vec![TabSnapshot {
            id: TabId::new(1),
            title: "main".to_owned(),
            layout: single_pane_layout_snapshot(PaneId::new(10)),
            panes: vec![pane_snapshot(PaneId::new(10), "/tmp")],
            active_pane: PaneId::new(10),
        }],
        active_tab: TabId::new(1),
    };

    assert_eq!(snapshot.validate(), Ok(()));
}

#[test]
fn validates_multiple_tabs_snapshot() {
    let snapshot = SessionSnapshot {
        tabs: vec![
            TabSnapshot {
                id: TabId::new(1),
                title: "one".to_owned(),
                layout: single_pane_layout_snapshot(PaneId::new(10)),
                panes: vec![pane_snapshot(PaneId::new(10), "/tmp/one")],
                active_pane: PaneId::new(10),
            },
            TabSnapshot {
                id: TabId::new(2),
                title: "two".to_owned(),
                layout: two_pane_layout_snapshot(PaneId::new(20), PaneId::new(21)),
                panes: vec![
                    pane_snapshot(PaneId::new(20), "/tmp/two-a"),
                    pane_snapshot(PaneId::new(21), "/tmp/two-b"),
                ],
                active_pane: PaneId::new(20),
            },
        ],
        active_tab: TabId::new(2),
    };

    assert_eq!(snapshot.validate(), Ok(()));
}

#[test]
fn rejects_missing_active_tab() {
    let snapshot = SessionSnapshot {
        tabs: vec![TabSnapshot {
            id: TabId::new(1),
            title: "main".to_owned(),
            layout: single_pane_layout_snapshot(PaneId::new(10)),
            panes: vec![pane_snapshot(PaneId::new(10), "/tmp")],
            active_pane: PaneId::new(10),
        }],
        active_tab: TabId::new(2),
    };

    assert_eq!(
        snapshot.validate(),
        Err(SessionValidationError::MissingActiveTab(TabId::new(2)))
    );
}

#[test]
fn rejects_duplicate_tab_id() {
    let snapshot = SessionSnapshot {
        tabs: vec![
            TabSnapshot {
                id: TabId::new(1),
                title: "one".to_owned(),
                layout: single_pane_layout_snapshot(PaneId::new(10)),
                panes: vec![pane_snapshot(PaneId::new(10), "/tmp/one")],
                active_pane: PaneId::new(10),
            },
            TabSnapshot {
                id: TabId::new(1),
                title: "two".to_owned(),
                layout: single_pane_layout_snapshot(PaneId::new(20)),
                panes: vec![pane_snapshot(PaneId::new(20), "/tmp/two")],
                active_pane: PaneId::new(20),
            },
        ],
        active_tab: TabId::new(1),
    };

    assert_eq!(
        snapshot.validate(),
        Err(SessionValidationError::DuplicateTabId(TabId::new(1)))
    );
}

#[test]
fn rejects_duplicate_pane_id() {
    let snapshot = SessionSnapshot {
        tabs: vec![
            TabSnapshot {
                id: TabId::new(1),
                title: "one".to_owned(),
                layout: single_pane_layout_snapshot(PaneId::new(10)),
                panes: vec![pane_snapshot(PaneId::new(10), "/tmp/one")],
                active_pane: PaneId::new(10),
            },
            TabSnapshot {
                id: TabId::new(2),
                title: "two".to_owned(),
                layout: single_pane_layout_snapshot(PaneId::new(10)),
                panes: vec![pane_snapshot(PaneId::new(10), "/tmp/two")],
                active_pane: PaneId::new(10),
            },
        ],
        active_tab: TabId::new(1),
    };

    assert_eq!(
        snapshot.validate(),
        Err(SessionValidationError::DuplicatePaneId(PaneId::new(10)))
    );
}

#[test]
fn rejects_missing_active_pane() {
    let snapshot = SessionSnapshot {
        tabs: vec![TabSnapshot {
            id: TabId::new(1),
            title: "main".to_owned(),
            layout: single_pane_layout_snapshot(PaneId::new(10)),
            panes: vec![pane_snapshot(PaneId::new(10), "/tmp")],
            active_pane: PaneId::new(11),
        }],
        active_tab: TabId::new(1),
    };

    assert_eq!(
        snapshot.validate(),
        Err(SessionValidationError::MissingActivePane {
            tab_id: TabId::new(1),
            pane_id: PaneId::new(11),
        })
    );
}

#[test]
fn rejects_layout_pane_missing_from_pane_list() {
    let snapshot = SessionSnapshot {
        tabs: vec![TabSnapshot {
            id: TabId::new(1),
            title: "main".to_owned(),
            layout: two_pane_layout_snapshot(PaneId::new(10), PaneId::new(11)),
            panes: vec![pane_snapshot(PaneId::new(10), "/tmp")],
            active_pane: PaneId::new(10),
        }],
        active_tab: TabId::new(1),
    };

    assert_eq!(
        snapshot.validate(),
        Err(SessionValidationError::MissingPaneInLayout {
            tab_id: TabId::new(1),
            pane_id: PaneId::new(11),
        })
    );
}


#[test]
fn validation_errors_print_themselves_for_debugging() {
    assert_eq!(SessionValidationError::NoTabs.debug_text(), "NoTabs");
    assert_eq!(SessionValidationError::MissingActiveTab(TabId::new(2)).debug_text(), "MissingActiveTab(TabId(2))");
    assert_eq!(
        SessionValidationError::MissingPaneInLayout { tab_id: TabId::new(1), pane_id: PaneId::new(11) }.debug_text(),
        format!("{:?}", SessionValidationError::MissingPaneInLayout { tab_id: TabId::new(1), pane_id: PaneId::new(11) })
    );
    assert_eq!(
        SessionValidationError::DuplicatePaneId(PaneId::new(10)).debug_text(),
        format!("{:?}", SessionValidationError::DuplicatePaneId(PaneId::new(10)))
    );
}

#[test]
fn rejects_session_without_tabs() {
    let snapshot = SessionSnapshot { tabs: vec![], active_tab: TabId::new(0) };
    assert_eq!(snapshot.validate(), Err(SessionValidationError::NoTabs));
}
