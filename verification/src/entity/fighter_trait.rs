use vstd::prelude::*;

verus! {

/// A descriptive attribute of a fighter, keyed by fighter and trait type.
#[derive(Clone, Debug)]
pub struct Model {
    pub fighter_id: i64,
    pub trait_type: String,
    pub value: String,
}

/// What a row holds.
pub struct ModelView {
    pub fighter_id: i64,
    pub trait_type: Seq<char>,
    pub value: Seq<char>,
}

impl View for Model {
    type V = ModelView;

    open spec fn view(&self) -> ModelView {
        ModelView { fighter_id: self.fighter_id, trait_type: self.trait_type@, value: self.value@ }
    }
}

} // verus!
