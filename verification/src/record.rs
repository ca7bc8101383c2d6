//! The reading record: the unit of wire transfer.
//!
//! A record carries a descriptive sensor name, the three parameters of the
//! thermistor's Beta-equation model, and the last resistance the device
//! computed.  The device fills `resistance` each acquisition cycle and
//! serializes the whole record into one frame.

use vstd::prelude::*;

verus! {

/// Fixed capacity of the record's name field, in bytes.
pub const NAME_CAPACITY: usize = 64;

/// The three numeric parameters of the Beta-equation thermistor model: the
/// Beta coefficient, the reference temperature in whole degrees Celsius,
/// and the resistance at the reference temperature in ohms.
#[derive(Clone, Copy, Debug, PartialEq, Eq, Structural)]
pub struct ThermistorParameter {
    pub b: u16,
    pub tn: i16,
    pub r_tn: u32,
}

/// One sensor reading as transferred over the wire: a bounded-length name,
/// the thermistor parameters, and the last-computed resistance in ohms.
#[derive(Debug)]
pub struct Thermistor {
    pub name: Vec<u8>,
    pub parameters: ThermistorParameter,
    pub resistance: u32,
}

/// Mathematical image of a record: the name as a byte sequence beside the
/// plain numeric fields.
#[verifier::ext_equal]
pub ghost struct ThermistorView {
    pub name: Seq<u8>,
    pub b: u16,
    pub tn: i16,
    pub r_tn: u32,
    pub resistance: u32,
}

impl View for Thermistor {
    type V = ThermistorView;

    open spec fn view(&self) -> ThermistorView {
        ThermistorView {
            name: self.name@,
            b: self.parameters.b,
            tn: self.parameters.tn,
            r_tn: self.parameters.r_tn,
            resistance: self.resistance,
        }
    }
}

/// A record is well formed when its name fits the fixed name capacity.
pub open spec fn record_wf(r: ThermistorView) -> bool {
    r.name.len() <= NAME_CAPACITY
}

impl Clone for Thermistor {
    fn clone(&self) -> (c: Self)
        ensures
            c@ == self@,
    {
        Thermistor {
            name: clone_bytes(&self.name),
            parameters: self.parameters,
            resistance: self.resistance,
        }
    }
}

impl PartialEq for Thermistor {
    fn eq(&self, other: &Self) -> (r: bool) {
        bytes_equal(&self.name, &other.name) && self.parameters == other.parameters
            && self.resistance == other.resistance
    }
}

impl vstd::std_specs::cmp::PartialEqSpecImpl for Thermistor {
    open spec fn obeys_eq_spec() -> bool {
        true
    }

    open spec fn eq_spec(&self, other: &Self) -> bool {
        self@ =~= other@
    }
}

fn clone_bytes(v: &Vec<u8>) -> (c: Vec<u8>)
    ensures
        c@ == v@,
{
    let mut c: Vec<u8> = Vec::new();
    let mut i: usize = 0;
    while i < v.len()
        invariant
            i <= v@.len(),
            c@ == v@.take(i as int),
        decreases v@.len() - i,
    {
        c.push(v[i]);
        proof {
            assert(c@ =~= v@.take(i as int + 1));
        }
        i += 1;
    }
    proof {
        assert(v@.take(v@.len() as int) =~= v@);
    }
    c
}

fn bytes_equal(a: &Vec<u8>, b: &Vec<u8>) -> (r: bool)
    ensures
        r == (a@ =~= b@),
{
    if a.len() != b.len() {
        return false;
    }
    let mut i: usize = 0;
    while i < a.len()
        invariant
            a@.len() == b@.len(),
            i <= a@.len(),
            forall|j: int| 0 <= j < i ==> a@[j] == b@[j],
        decreases a@.len() - i,
    {
        if a[i] != b[i] {
            return false;
        }
        i += 1;
    }
    true
}

} // verus!
