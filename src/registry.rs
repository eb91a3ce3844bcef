use vstd::prelude::*;

verus! {

/// One capability advertised by the server during the registry handshake.
pub struct GlobalDescriptor {
    /// Server-side name of the global, used in the bind request.
    pub name: u32,
    pub interface: String,
    pub version: u32,
}

/// The global chosen by the binder and the version to bind it at.
#[derive(Clone, Copy, Debug, PartialEq, Eq, Structural)]
pub struct Selection {
    pub name: u32,
    pub version: u32,
}

/// Why no global could be bound.
#[derive(Clone, Copy, Debug, PartialEq, Eq, Structural)]
pub enum BindError {
    /// No advertised global has the wanted interface at a version inside the range.
    MissingGlobal,
    /// The engine already holds a bound manager.
    AlreadyBound,
}

/// The global at `g` can serve a bind of `interface` over `min..=max`.
pub open spec fn eligible(g: GlobalDescriptor, interface: Seq<char>, min: u32, max: u32) -> bool {
    &&& g.interface@ == interface
    &&& min <= max
    &&& min <= g.version
}

/// Index of the first eligible global in `globals`, if any.
pub open spec fn first_eligible(
    globals: Seq<GlobalDescriptor>,
    interface: Seq<char>,
    min: u32,
    max: u32,
) -> Option<int> {
    if exists|i: int| 0 <= i < globals.len() && eligible(globals[i], interface, min, max) {
        Some(
            choose|i: int|
                0 <= i < globals.len() && eligible(globals[i], interface, min, max) && forall|
                    j: int,
                | 0 <= j < i ==> !eligible(globals[j], interface, min, max),
        )
    } else {
        None
    }
}

/// The version to bind: the advertised one, clamped to the requested maximum.
pub open spec fn negotiated(advertised: u32, max: u32) -> u32 {
    if advertised <= max {
        advertised
    } else {
        max
    }
}

/// What the binder selects from `globals` for `interface` over `min..=max`.
pub open spec fn selection_of(
    globals: Seq<GlobalDescriptor>,
    interface: Seq<char>,
    min: u32,
    max: u32,
) -> Result<Selection, BindError> {
    match first_eligible(globals, interface, min, max) {
        Some(i) => Ok(
            Selection { name: globals[i].name, version: negotiated(globals[i].version, max) },
        ),
        None => Err(BindError::MissingGlobal),
    }
}

proof fn lemma_first_eligible(
    globals: Seq<GlobalDescriptor>,
    interface: Seq<char>,
    min: u32,
    max: u32,
    k: int,
)
    requires
        0 <= k < globals.len(),
        eligible(globals[k], interface, min, max),
        forall|j: int| 0 <= j < k ==> !eligible(globals[j], interface, min, max),
    ensures
        first_eligible(globals, interface, min, max) == Some(k),
{
    let i = first_eligible(globals, interface, min, max)->Some_0;
    if i < k {
        assert(!eligible(globals[i], interface, min, max));
    } else if k < i {
        assert(!eligible(globals[k], interface, min, max));
    }
}

/// Picks the first advertised global that has `interface` and a version inside
/// `min..=max`; the version bound is the advertised one clamped to `max`.
pub fn select_global(globals: &Vec<GlobalDescriptor>, interface: &String, min: u32, max: u32) -> (r:
    Result<Selection, BindError>)
    ensures
        r == selection_of(globals@, interface@, min, max),
{
    let mut i: usize = 0;
    while i < globals.len()
        invariant
            0 <= i <= globals@.len(),
            forall|j: int| 0 <= j < i ==> !eligible(globals@[j], interface@, min, max),
        decreases globals@.len() - i,
    {
        let g = &globals[i];
        if g.interface == *interface && min <= max && min <= g.version {
            proof {
                lemma_first_eligible(globals@, interface@, min, max, i as int);
            }
            let version = if g.version <= max {
                g.version
            } else {
                max
            };
            return Ok(Selection { name: g.name, version });
        }
        i = i + 1;
    }
    assert(first_eligible(globals@, interface@, min, max) is None);
    Err(BindError::MissingGlobal)
}

} // verus!
