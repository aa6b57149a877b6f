//! The built-in robot models and the events that ask for one to be spawned.

use vstd::prelude::*;

verus! {

/// Each of the default models that the simulator can spawn.
#[derive(Debug, Clone, Copy, PartialEq, Eq, Hash, Structural)]
pub enum Model {
    Car,
    Snake,
    Spider,
    Sphere,
    Wheely,
    Humanoid,
    Arena,
    Plane,
}

/// The display name of a model.
pub open spec fn model_name(m: Model) -> Seq<char> {
    match m {
        Model::Car => seq!['C', 'a', 'r'],
        Model::Snake => seq!['S', 'n', 'a', 'k', 'e'],
        Model::Spider => seq!['S', 'p', 'i', 'd', 'e', 'r'],
        Model::Sphere => seq!['S', 'p', 'h', 'e', 'r', 'e'],
        Model::Wheely => seq!['W', 'h', 'e', 'e', 'l', 'y'],
        Model::Humanoid => seq!['H', 'u', 'm', 'a', 'n', 'o', 'i', 'd'],
        Model::Arena => seq!['A', 'r', 'e', 'n', 'a'],
        Model::Plane => seq!['P', 'l', 'a', 'n', 'e'],
    }
}

impl Model {
    /// Name to use for the model, for example in the UI.
    pub fn name(&self) -> (r: &'static str)
        ensures
            r@ == model_name(*self),
    {
        match self {
            Model::Car => {
                let r = "Car";
                proof {
                    reveal_strlit("Car");
                }
                r
            },
            Model::Snake => {
                let r = "Snake";
                proof {
                    reveal_strlit("Snake");
                }
                r
            },
            Model::Spider => {
                let r = "Spider";
                proof {
                    reveal_strlit("Spider");
                }
                r
            },
            Model::Sphere => {
                let r = "Sphere";
                proof {
                    reveal_strlit("Sphere");
                }
                r
            },
            Model::Wheely => {
                let r = "Wheely";
                proof {
                    reveal_strlit("Wheely");
                }
                r
            },
            Model::Humanoid => {
                let r = "Humanoid";
                proof {
                    reveal_strlit("Humanoid");
                }
                r
            },
            Model::Arena => {
                let r = "Arena";
                proof {
                    reveal_strlit("Arena");
                }
                r
            },
            Model::Plane => {
                let r = "Plane";
                proof {
                    reveal_strlit("Plane");
                }
                r
            },
        }
    }

    /// Whether spawning the model needs a second material for its wheels
    /// (the car and Wheely get one, in dark gray).
    pub fn has_wheels(&self) -> (r: bool)
        ensures
            r <==> (*self == Model::Car || *self == Model::Wheely),
    {
        match self {
            Model::Car | Model::Wheely => true,
            _ => false,
        }
    }
}

/// The models offered in the spawn window, in the order they are listed.
pub open spec fn spawn_menu_spec() -> Seq<Model> {
    seq![Model::Sphere, Model::Car, Model::Snake, Model::Spider, Model::Wheely]
}

/// The models offered in the spawn window, in the order they are listed.
pub fn spawn_menu() -> (r: Vec<Model>)
    ensures
        r@ == spawn_menu_spec(),
{
    let r = vec![Model::Sphere, Model::Car, Model::Snake, Model::Spider, Model::Wheely];
    assert(r@ == spawn_menu_spec());
    r
}

/// Different models have different names.
pub proof fn lemma_model_names_distinct(a: Model, b: Model)
    requires
        model_name(a) == model_name(b),
    ensures
        a == b,
{
    let na = model_name(a);
    let nb = model_name(b);
    assert(na.len() == nb.len());
    assert(na[0] == nb[0]);
    if na.len() > 2 {
        assert(na[2] == nb[2]);
    }
}

/// A request to spawn something. `T` is where and how the model is placed
/// (its transform and color).
pub enum SpawnEvent<T> {
    OpenWindow,
    Spawn { model: Model, placement: T },
}

/// Whether the spawn window is open after reading `events`: it opens on the
/// first `OpenWindow` request and nothing here closes it.
pub open spec fn spawn_window_open_spec<T>(open: bool, events: Seq<SpawnEvent<T>>) -> bool {
    open || exists|i: int| 0 <= i < events.len() && events[i] is OpenWindow
}

/// Updates the open flag of the spawn window from the spawn events of a frame.
pub fn spawn_window_open<T>(open: bool, events: &Vec<SpawnEvent<T>>) -> (r: bool)
    ensures
        r == spawn_window_open_spec(open, events@),
{
    let mut r = open;
    let mut i: usize = 0;
    while i < events.len()
        invariant
            i <= events.len(),
            r == (open || exists|j: int| 0 <= j < i && events@[j] is OpenWindow),
        decreases events.len() - i,
    {
        if let SpawnEvent::OpenWindow = &events[i] {
            r = true;
        }
        i = i + 1;
    }
    r
}

} // verus!
