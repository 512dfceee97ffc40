use vmiscope_gui::nav::{Group, View};

#[test]
fn every_view_is_in_the_rail() {
    for view in [
        View::Explorer,
        View::Query,
        View::Events,
        View::Process,
        View::Network,
        View::Persistence,
        View::Providers,
        View::Saved,
        View::Compare,
        View::Machines,
        View::Settings,
    ] {
        assert!(View::all().contains(&view), "{view:?} is not in the rail");
    }
}

#[test]
fn the_rail_is_ordered_by_group() {
    let order = [Group::Explore, Group::Security, Group::Data, Group::Config];
    let mut seen = 0;
    for view in View::all() {
        let at = order
            .iter()
            .position(|g| *g == view.group())
            .expect("view has a known group");
        assert!(
            at >= seen,
            "{view:?} ({:?}) appears after a later group",
            view.group()
        );
        seen = at;
    }
}

#[test]
fn icons_are_distinct() {
    let mut seen = std::collections::HashMap::new();
    for view in View::all() {
        if let Some(prev) = seen.insert(view.icon(), view) {
            panic!("{view:?} and {prev:?} share an icon");
        }
    }
}

#[test]
fn rail_labels_fit() {
    for view in View::all() {
        assert!(
            view.rail_label().len() <= 9,
            "{view:?} rail label {:?} is too long",
            view.rail_label()
        );
    }
}
