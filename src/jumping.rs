use vstd::prelude::*;

verus! {

/// Marks the ground that jumpers can stand on.
#[derive(Clone, Copy, Debug)]
pub struct JumpPoint;

/// A body that can jump when it touches the ground.
#[derive(Clone, Copy, Debug)]
pub struct Jumper {
    pub has_ground_contact: bool,
}

impl Default for Jumper {
    fn default() -> (r: Self)
        ensures
            !r.has_ground_contact,
    {
        Jumper { has_ground_contact: false }
    }
}

/// The ground contact given by the contacts with each jump point, in order: the first
/// jump point that the jumper has a contact pair with decides; none means no contact.
/// Each entry is `None` where there is no contact pair, else whether the pair has an
/// active contact.
pub open spec fn first_contact(contacts: Seq<Option<bool>>) -> bool
    decreases contacts.len(),
{
    if contacts.len() == 0 {
        false
    } else if contacts[0].is_some() {
        contacts[0].unwrap()
    } else {
        first_contact(contacts.skip(1))
    }
}

/// Updates a dynamic jumper from its contacts with the jump points.
pub fn allow_jumpers_to_jump(jumper: &mut Jumper, contacts: &Vec<Option<bool>>)
    ensures
        final(jumper).has_ground_contact == first_contact(contacts@),
{
    let mut decided: Option<bool> = None;
    let mut i: usize = 0;
    proof {
        assert(contacts@.skip(0) =~= contacts@);
    }
    while decided.is_none() && i < contacts.len()
        invariant
            i <= contacts@.len(),
            decided.is_none() ==> first_contact(contacts@) == first_contact(contacts@.skip(i as int)),
            decided.is_some() ==> decided.unwrap() == first_contact(contacts@),
        decreases contacts@.len() - i,
    {
        proof {
            assert(contacts@.skip(i as int).skip(1) =~= contacts@.skip(i + 1));
        }
        if let Some(active) = contacts[i] {
            decided = Some(active);
        }
        i = i + 1;
    }
    let has_ground_contact = match decided {
        Some(active) => active,
        None => false,
    };
    jumper.has_ground_contact = has_ground_contact;
}

/// Updates a kinematic jumper from what its character controller reported.
pub fn allow_kinematic_jumpers_to_jump(jumper: &mut Jumper, grounded: bool)
    ensures
        final(jumper).has_ground_contact == grounded,
{
    jumper.has_ground_contact = grounded;
}

} // verus!
