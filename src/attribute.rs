use vstd::prelude::*;

verus! {

/// A skill or property used for matching requests to servers: an identifier
/// (a hash of a human-readable name) and an optional level.
#[derive(Debug, Clone, Copy, PartialEq, Eq, Structural)]
pub struct Attribute {
    pub id: u64,
    pub level: Option<usize>,
}

impl Attribute {
    pub fn new(id: u64, level: Option<usize>) -> (r: Self)
        ensures
            r.id == id,
            r.level == level,
    {
        Attribute { id, level }
    }
}

/// An element-by-element copy of a list of attributes.
pub fn copy_attributes(source: &Vec<Attribute>) -> (r: Vec<Attribute>)
    ensures
        r@ == source@,
{
    let mut attributes: Vec<Attribute> = Vec::new();
    let mut a: usize = 0;
    while a < source.len()
        invariant
            a <= source@.len(),
            attributes@ == source@.subrange(0, a as int),
        decreases source@.len() - a,
    {
        attributes.push(source[a]);
        a += 1;
    }
    assert(attributes@ =~= source@);
    attributes
}

} // verus!
