//! Structured request parameters: an ordered list of key/value pairs that is
//! later folded into a JSON object. A key pushed twice ends up bound to the
//! later value, exactly as assigning twice into a JSON object would.

use vstd::prelude::*;

verus! {

/// One parameter value.
#[derive(Debug, Clone, PartialEq)]
pub enum ParamValue {
    Str(String),
    Int(i64),
    UInt(u64),
    Bool(bool),
}

/// The mathematical shape of one parameter value.
pub enum ParamV {
    Str(Seq<char>),
    Int(i64),
    UInt(u64),
    Bool(bool),
}

impl View for ParamValue {
    type V = ParamV;

    open spec fn view(&self) -> ParamV {
        match self {
            ParamValue::Str(s) => ParamV::Str(s@),
            ParamValue::Int(n) => ParamV::Int(*n),
            ParamValue::UInt(n) => ParamV::UInt(*n),
            ParamValue::Bool(b) => ParamV::Bool(*b),
        }
    }
}

/// The binding a pair list gives to a key: the last pair with that key wins,
/// as it would when the pairs are folded into a JSON object in order.
pub open spec fn lookup(s: Seq<(Seq<char>, ParamV)>, k: Seq<char>) -> Option<ParamV>
    decreases s.len(),
{
    if s.len() == 0 {
        None
    } else if s.last().0 == k {
        Some(s.last().1)
    } else {
        lookup(s.drop_last(), k)
    }
}

/// An ordered parameter list, viewed as a sequence of key/value pairs.
#[derive(Debug, Clone, PartialEq)]
pub struct Params {
    entries: Vec<(String, ParamValue)>,
}

impl View for Params {
    type V = Seq<(Seq<char>, ParamV)>;

    closed spec fn view(&self) -> Seq<(Seq<char>, ParamV)> {
        self.entries@.map_values(|e: (String, ParamValue)| (e.0@, e.1@))
    }
}

impl Params {
    /// An empty parameter list.
    pub fn new() -> (r: Params)
        ensures
            r@ == Seq::<(Seq<char>, ParamV)>::empty(),
    {
        let r = Params { entries: Vec::new() };
        proof {
            assert(r@ =~= Seq::<(Seq<char>, ParamV)>::empty());
        }
        r
    }

    /// Appends a binding; because the later pair wins, this is also how an
    /// existing key is overwritten.
    pub fn push(&mut self, key: &str, value: ParamValue)
        ensures
            final(self)@ == old(self)@.push((key@, value@)),
            lookup(final(self)@, key@) == Some(value@),
    {
        let ghost old_view = self@;
        self.entries.push((String::from_str(key), value));
        proof {
            assert(self@ =~= old_view.push((key@, value@)));
            assert(self@.last() == (key@, value@));
        }
    }

    /// How many bindings the list holds.
    pub fn len(&self) -> (n: usize)
        ensures
            n == self@.len(),
    {
        self.entries.len()
    }

    /// Hands the bindings out for encoding, in order.
    pub fn entries(&self) -> (r: &Vec<(String, ParamValue)>)
        ensures
            r@.map_values(|e: (String, ParamValue)| (e.0@, e.1@)) == self@,
    {
        &self.entries
    }
}

} // verus!
