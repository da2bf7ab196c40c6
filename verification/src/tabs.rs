//! The views of the terminal interface and the categories of its breakdown.

use vstd::prelude::*;
use vstd::view::View as _;

verus! {

/// A view of the terminal interface.
#[derive(Debug, Clone, Copy, PartialEq, Eq, Structural)]
pub enum View {
    Overview,
    Breakdown,
    Records,
    Active,
    Tokens,
}

impl View {
    /// The views in the order of their tabs.
    pub open spec fn order() -> Seq<View> {
        seq![View::Overview, View::Breakdown, View::Records, View::Active, View::Tokens]
    }

    /// The view's place among the tabs.
    pub open spec fn place(self) -> int {
        match self {
            View::Overview => 0,
            View::Breakdown => 1,
            View::Records => 2,
            View::Active => 3,
            View::Tokens => 4,
        }
    }

    /// The view's name.
    pub open spec fn name(self) -> Seq<char> {
        match self {
            View::Overview => "Overview"@,
            View::Breakdown => "Breakdown"@,
            View::Records => "Records"@,
            View::Active => "Active"@,
            View::Tokens => "Tokens"@,
        }
    }

    /// The views in the order of their tabs.
    pub fn all() -> (r: Vec<View>)
        ensures
            r@ == View::order(),
    {
        vec![View::Overview, View::Breakdown, View::Records, View::Active, View::Tokens]
    }

    /// The view's name.
    pub fn title(self) -> (r: &'static str)
        ensures
            r@ == self.name(),
    {
        match self {
            View::Overview => "Overview",
            View::Breakdown => "Breakdown",
            View::Records => "Records",
            View::Active => "Active",
            View::Tokens => "Tokens",
        }
    }

    /// The view's place among the tabs.
    pub fn index(self) -> (r: usize)
        ensures
            r == self.place(),
            View::order()[r as int] == self,
    {
        match self {
            View::Overview => 0,
            View::Breakdown => 1,
            View::Records => 2,
            View::Active => 3,
            View::Tokens => 4,
        }
    }

    /// The view after this one, the first after the last.
    pub open spec fn after(self) -> View {
        View::order()[(self.place() + 1) % 5]
    }

    /// The view before this one, the last before the first.
    pub open spec fn prior(self) -> View {
        View::order()[(self.place() + 4) % 5]
    }

    /// The view after this one, the first after the last.
    pub fn next(self) -> (r: View)
        ensures
            r == self.after(),
    {
        let all = View::all();
        all[(self.index() + 1) % 5]
    }

    /// The view before this one, the last before the first.
    pub fn previous(self) -> (r: View)
        ensures
            r == self.prior(),
    {
        let all = View::all();
        all[(self.index() + 4) % 5]
    }
}

/// Going on and back leads to the same view, in either order.
pub proof fn law_views_cycle(view: View)
    ensures
        view.after().prior() == view,
        view.prior().after() == view,
        view.after().after().after().after().after() == view,
{
}

/// A category of the breakdown.
#[derive(Debug, Clone, Copy, PartialEq, Eq, Structural)]
pub enum BreakdownKind {
    Clients,
    Aliases,
    Commands,
    Distribution,
}

impl BreakdownKind {
    /// The categories in the order of their tabs.
    pub open spec fn order() -> Seq<BreakdownKind> {
        seq![
            BreakdownKind::Clients,
            BreakdownKind::Aliases,
            BreakdownKind::Commands,
            BreakdownKind::Distribution,
        ]
    }

    /// The category's place among the tabs.
    pub open spec fn place(self) -> int {
        match self {
            BreakdownKind::Clients => 0,
            BreakdownKind::Aliases => 1,
            BreakdownKind::Commands => 2,
            BreakdownKind::Distribution => 3,
        }
    }

    /// The category's name.
    pub open spec fn name(self) -> Seq<char> {
        match self {
            BreakdownKind::Clients => "Clients"@,
            BreakdownKind::Aliases => "Aliases"@,
            BreakdownKind::Commands => "Commands"@,
            BreakdownKind::Distribution => "Durations"@,
        }
    }

    /// The categories in the order of their tabs.
    pub fn all() -> (r: Vec<BreakdownKind>)
        ensures
            r@ == BreakdownKind::order(),
    {
        vec![
            BreakdownKind::Clients,
            BreakdownKind::Aliases,
            BreakdownKind::Commands,
            BreakdownKind::Distribution,
        ]
    }

    /// The category's name.
    pub fn title(self) -> (r: &'static str)
        ensures
            r@ == self.name(),
    {
        match self {
            BreakdownKind::Clients => "Clients",
            BreakdownKind::Aliases => "Aliases",
            BreakdownKind::Commands => "Commands",
            BreakdownKind::Distribution => "Durations",
        }
    }

    /// The category's place among the tabs.
    pub fn index(self) -> (r: usize)
        ensures
            r == self.place(),
            BreakdownKind::order()[r as int] == self,
    {
        match self {
            BreakdownKind::Clients => 0,
            BreakdownKind::Aliases => 1,
            BreakdownKind::Commands => 2,
            BreakdownKind::Distribution => 3,
        }
    }

    /// The category after this one, the first after the last.
    pub open spec fn after(self) -> BreakdownKind {
        BreakdownKind::order()[(self.place() + 1) % 4]
    }

    /// The category before this one, the last before the first.
    pub open spec fn prior(self) -> BreakdownKind {
        BreakdownKind::order()[(self.place() + 3) % 4]
    }

    /// The category after this one, the first after the last.
    pub fn next(self) -> (r: BreakdownKind)
        ensures
            r == self.after(),
    {
        let all = BreakdownKind::all();
        all[(self.index() + 1) % 4]
    }

    /// The category before this one, the last before the first.
    pub fn previous(self) -> (r: BreakdownKind)
        ensures
            r == self.prior(),
    {
        let all = BreakdownKind::all();
        all[(self.index() + 3) % 4]
    }
}

/// Going on and back leads to the same category, in either order.
pub proof fn law_categories_cycle(kind: BreakdownKind)
    ensures
        kind.after().prior() == kind,
        kind.prior().after() == kind,
        kind.after().after().after().after() == kind,
{
}

} // verus!
