use vstd::prelude::*;

verus! {

#[derive(Clone, Copy, Debug, PartialEq, Eq, Structural)]
pub enum BoothPlanCategory {
    MainRice,
    MainNoodleFlour,
    MainSkewerGrill,
    MainHotSnack,
    MainSoup,
    MainWorldStreet,
    SweetJapanese,
    SweetWestern,
    SweetCold,
    SweetSnack,
    SweetDrink,
    SweetWorld,
    Drink,
}

#[derive(Clone, Copy, Debug, PartialEq, Eq, Structural)]
pub enum GeneralPlanCategory {
    Play,
    Display,
    Performance,
    Cafe,
    Rest,
    Presentation,
}

/// The kind of a plan with its kind-specific attributes, as supplied on creation.
#[derive(Clone, Debug, PartialEq)]
pub enum PlanTypeCreate {
    Booth { categories: Vec<BoothPlanCategory> },
    General { categories: Vec<GeneralPlanCategory> },
    Stage {},
    Labo { is_lab_tour: bool },
}

/// The kind of a stored plan with its kind-specific attributes.
#[derive(Clone, Debug, PartialEq)]
pub enum PlanTypeRead {
    Booth { categories: Vec<BoothPlanCategory> },
    General { categories: Vec<GeneralPlanCategory> },
    Stage {},
    Labo { is_lab_tour: bool },
}

/// A change to the kind-specific attributes; `None` leaves one unchanged.
#[derive(Clone, Debug, PartialEq)]
pub enum PlanTypeUpdate {
    Booth { categories: Option<Vec<BoothPlanCategory>> },
    General { categories: Option<Vec<GeneralPlanCategory>> },
    Stage {},
    Labo { is_lab_tour: Option<bool> },
}

/// The stored kind for a supplied kind: the same variant and attributes.
pub open spec fn read_type_of(t: PlanTypeCreate) -> PlanTypeRead {
    match t {
        PlanTypeCreate::Booth { categories } => PlanTypeRead::Booth { categories },
        PlanTypeCreate::General { categories } => PlanTypeRead::General { categories },
        PlanTypeCreate::Stage {} => PlanTypeRead::Stage {},
        PlanTypeCreate::Labo { is_lab_tour } => PlanTypeRead::Labo { is_lab_tour },
    }
}

impl From<PlanTypeCreate> for PlanTypeRead {
    fn from(t: PlanTypeCreate) -> (r: PlanTypeRead) {
        match t {
            PlanTypeCreate::Booth { categories } => PlanTypeRead::Booth { categories },
            PlanTypeCreate::General { categories } => PlanTypeRead::General { categories },
            PlanTypeCreate::Stage {} => PlanTypeRead::Stage {},
            PlanTypeCreate::Labo { is_lab_tour } => PlanTypeRead::Labo { is_lab_tour },
        }
    }
}

impl vstd::std_specs::convert::FromSpecImpl<PlanTypeCreate> for PlanTypeRead {
    open spec fn obeys_from_spec() -> bool {
        true
    }

    open spec fn from_spec(t: PlanTypeCreate) -> PlanTypeRead {
        read_type_of(t)
    }
}

} // verus!
