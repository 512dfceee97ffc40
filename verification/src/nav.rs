//! The application's destinations, and the rail order that groups them.

use vstd::prelude::*;
use vstd::view::View as _;

verus! {

/// Everywhere you can be.
#[derive(PartialEq, Eq, Clone, Copy, Debug, Structural)]
pub enum View {
    Explorer,
    Query,
    Events,
    Process,
    Network,
    Persistence,
    Providers,
    Saved,
    Compare,
    Machines,
    Settings,
}

/// A visual break in the rail. Not a destination.
#[derive(PartialEq, Eq, Clone, Copy, Debug, Structural)]
pub enum Group {
    Explore,
    Security,
    Data,
    /// Pinned to the bottom, away from the rest.
    Config,
}

/// The rail glyph of a destination (a Phosphor icon, by name).
#[derive(PartialEq, Eq, Clone, Copy, Debug, Hash, Structural)]
pub enum Icon {
    TreeStructure,
    TerminalWindow,
    Broadcast,
    Cpu,
    GlobeHemisphereWest,
    ShieldWarning,
    PlugsConnected,
    BookmarkSimple,
    GitDiff,
    HardDrives,
    GearSix,
}

/// The rail order. `Process` leads the security group deliberately: process
/// start and stop is the telemetry the other three get correlated against.
pub open spec fn rail_spec() -> Seq<View> {
    seq![
        View::Explorer,
        View::Query,
        View::Events,
        View::Process,
        View::Network,
        View::Persistence,
        View::Providers,
        View::Saved,
        View::Compare,
        View::Machines,
        View::Settings,
    ]
}

/// Position of a group in the rail, top to bottom.
pub open spec fn group_rank(g: Group) -> int {
    match g {
        Group::Explore => 0,
        Group::Security => 1,
        Group::Data => 2,
        Group::Config => 3,
    }
}

impl View {
    pub open spec fn group_spec(self) -> Group {
        match self {
            View::Explorer | View::Query | View::Events => Group::Explore,
            View::Process | View::Network | View::Persistence | View::Providers => Group::Security,
            View::Saved | View::Compare | View::Machines => Group::Data,
            View::Settings => Group::Config,
        }
    }

    pub open spec fn icon_spec(self) -> Icon {
        match self {
            View::Explorer => Icon::TreeStructure,
            View::Query => Icon::TerminalWindow,
            View::Events => Icon::Broadcast,
            View::Process => Icon::Cpu,
            View::Network => Icon::GlobeHemisphereWest,
            View::Persistence => Icon::ShieldWarning,
            View::Providers => Icon::PlugsConnected,
            View::Saved => Icon::BookmarkSimple,
            View::Compare => Icon::GitDiff,
            View::Machines => Icon::HardDrives,
            View::Settings => Icon::GearSix,
        }
    }

    pub open spec fn title_spec(self) -> Seq<char> {
        match self {
            View::Explorer => "Explorer"@,
            View::Query => "Query"@,
            View::Events => "Events"@,
            View::Process => "Process"@,
            View::Network => "Network"@,
            View::Persistence => "Persistence"@,
            View::Providers => "Providers"@,
            View::Saved => "Saved"@,
            View::Compare => "Compare"@,
            View::Machines => "Machines"@,
            View::Settings => "Settings"@,
        }
    }

    pub open spec fn rail_label_spec(self) -> Seq<char> {
        match self {
            View::Persistence => "Persist"@,
            other => other.title_spec(),
        }
    }

    /// Every destination, in rail order.
    pub fn all() -> (r: [View; 11])
        ensures
            r@ == rail_spec(),
    {
        let r = [
            View::Explorer,
            View::Query,
            View::Events,
            View::Process,
            View::Network,
            View::Persistence,
            View::Providers,
            View::Saved,
            View::Compare,
            View::Machines,
            View::Settings,
        ];
        assert(r@ =~= rail_spec());
        r
    }

    pub fn group(self) -> (g: Group)
        ensures
            g == self.group_spec(),
    {
        match self {
            View::Explorer | View::Query | View::Events => Group::Explore,
            View::Process | View::Network | View::Persistence | View::Providers => Group::Security,
            View::Saved | View::Compare | View::Machines => Group::Data,
            View::Settings => Group::Config,
        }
    }

    pub fn icon(self) -> (i: Icon)
        ensures
            i == self.icon_spec(),
    {
        match self {
            View::Explorer => Icon::TreeStructure,
            View::Query => Icon::TerminalWindow,
            View::Events => Icon::Broadcast,
            View::Process => Icon::Cpu,
            View::Network => Icon::GlobeHemisphereWest,
            View::Persistence => Icon::ShieldWarning,
            View::Providers => Icon::PlugsConnected,
            View::Saved => Icon::BookmarkSimple,
            View::Compare => Icon::GitDiff,
            View::Machines => Icon::HardDrives,
            View::Settings => Icon::GearSix,
        }
    }

    /// The rail label: the title, except where the full word does not fit the
    /// rail's width -- "Persistence" becomes "Persist" there and only there.
    pub fn rail_label(self) -> (r: &'static str)
        ensures
            r@ == self.rail_label_spec(),
    {
        match self {
            View::Persistence => "Persist",
            other => other.title(),
        }
    }

    /// The view's name, everywhere except the rail.
    pub fn title(self) -> (r: &'static str)
        ensures
            r@ == self.title_spec(),
    {
        match self {
            View::Explorer => "Explorer",
            View::Query => "Query",
            View::Events => "Events",
            View::Process => "Process",
            View::Network => "Network",
            View::Persistence => "Persistence",
            View::Providers => "Providers",
            View::Saved => "Saved",
            View::Compare => "Compare",
            View::Machines => "Machines",
            View::Settings => "Settings",
        }
    }

    /// One line describing what the view is for, for the command palette.
    pub fn hint(self) -> (r: &'static str)
        ensures
            r@ == (match self {
                View::Explorer => "Browse namespaces, classes and instances"@,
                View::Query => "Run WQL against any namespace"@,
                View::Events => "Watch a live WMI notification query"@,
                View::Process => "Live process starts and stops"@,
                View::Network => "Live TCP and UDP connections"@,
                View::Persistence => "Hunt WMI event-subscription persistence"@,
                View::Providers => "WMI providers and their host processes"@,
                View::Saved => "Your query library"@,
                View::Compare => "Diff two machines"@,
                View::Machines => "Connection targets"@,
                View::Settings => "Preferences"@,
            }),
    {
        match self {
            View::Explorer => "Browse namespaces, classes and instances",
            View::Query => "Run WQL against any namespace",
            View::Events => "Watch a live WMI notification query",
            View::Process => "Live process starts and stops",
            View::Network => "Live TCP and UDP connections",
            View::Persistence => "Hunt WMI event-subscription persistence",
            View::Providers => "WMI providers and their host processes",
            View::Saved => "Your query library",
            View::Compare => "Diff two machines",
            View::Machines => "Connection targets",
            View::Settings => "Preferences",
        }
    }

    /// Views that are not built yet, so the rail can show them as coming.
    pub fn is_placeholder(self) -> (b: bool)
        ensures
            b == (self == View::Query || self == View::Process || self == View::Saved
                || self == View::Compare || self == View::Machines),
    {
        match self {
            View::Query | View::Process | View::Saved | View::Compare | View::Machines => true,
            _ => false,
        }
    }
}

/// Every destination is in the rail, so none is unreachable.
pub proof fn lemma_every_view_in_rail(v: View)
    ensures
        rail_spec().contains(v),
{
    let r = rail_spec();
    match v {
        View::Explorer => assert(r[0] == v),
        View::Query => assert(r[1] == v),
        View::Events => assert(r[2] == v),
        View::Process => assert(r[3] == v),
        View::Network => assert(r[4] == v),
        View::Persistence => assert(r[5] == v),
        View::Providers => assert(r[6] == v),
        View::Saved => assert(r[7] == v),
        View::Compare => assert(r[8] == v),
        View::Machines => assert(r[9] == v),
        View::Settings => assert(r[10] == v),
    }
}

/// The rail is ordered by group: no view appears after a later group has
/// started, so the dividers fall between whole groups.
pub proof fn lemma_rail_ordered_by_group(i: int, j: int)
    requires
        0 <= i <= j < rail_spec().len(),
    ensures
        group_rank(rail_spec()[i].group_spec()) <= group_rank(rail_spec()[j].group_spec()),
{
}

/// No two destinations share a rail glyph.
pub proof fn lemma_icons_distinct(a: View, b: View)
    requires
        a != b,
    ensures
        a.icon_spec() != b.icon_spec(),
{
}

/// Every rail label fits the rail: nine characters at most.
pub proof fn lemma_rail_labels_fit(v: View)
    ensures
        v.rail_label_spec().len() <= 9,
{
    reveal_strlit("Persist");
    reveal_strlit("Explorer");
    reveal_strlit("Query");
    reveal_strlit("Events");
    reveal_strlit("Process");
    reveal_strlit("Network");
    reveal_strlit("Providers");
    reveal_strlit("Saved");
    reveal_strlit("Compare");
    reveal_strlit("Machines");
    reveal_strlit("Settings");
}

} // verus!
