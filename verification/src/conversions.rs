//! The conversions between partial and complete inputs and outputs, as
//! std's `From` and `TryFrom`.
use vstd::prelude::*;

use crate::input::{complete_vin, partial_of_vin, PartialVin, Vin, VinConversionError, VinView};
use crate::output::{
    complete_vout, partial_of_vout, PartialVout, Vout, VoutConversionError, VoutView,
};

verus! {

/// The partial input that knows everything the input holds.
impl From<Vin> for PartialVin {
    fn from(vin: Vin) -> (r: PartialVin)
        ensures
            r@ == partial_of_vin(vin@),
    {
        PartialVin {
            previous_output: Some(vin.previous_output),
            spent_output_index: Some(vin.spent_output_index),
            data: vin.data,
        }
    }
}

impl vstd::std_specs::convert::FromSpecImpl<Vin> for PartialVin {
    open spec fn obeys_from_spec() -> bool {
        true
    }

    open spec fn from_spec(vin: Vin) -> PartialVin {
        PartialVin {
            previous_output: Some(vin.previous_output),
            spent_output_index: Some(vin.spent_output_index),
            data: vin.data,
        }
    }
}

/// The input with a known outpoint, if the partial input knows it.
impl TryFrom<PartialVin> for Vin {
    type Error = VinConversionError;

    fn try_from(partial: PartialVin) -> (r: Result<Vin, VinConversionError>)
        ensures
            r matches Ok(v) ==> complete_vin(partial@) == Ok::<VinView, VinConversionError>(v@),
            r matches Err(e) ==> complete_vin(partial@) == Err::<VinView, VinConversionError>(e),
    {
        let PartialVin { previous_output, spent_output_index, data } = partial;
        let previous_output = match previous_output {
            Some(t) => t,
            None => return Err(VinConversionError::MissingTxid),
        };
        let spent_output_index = match spent_output_index {
            Some(i) => i,
            None => return Err(VinConversionError::MissingVout),
        };
        Ok(Vin { previous_output, spent_output_index, data })
    }
}

impl vstd::std_specs::convert::TryFromSpecImpl<PartialVin> for Vin {
    open spec fn obeys_try_from_spec() -> bool {
        true
    }

    open spec fn try_from_spec(partial: PartialVin) -> Result<Vin, VinConversionError> {
        match (partial.previous_output, partial.spent_output_index) {
            (Some(t), Some(i)) => Ok(Vin { previous_output: t, spent_output_index: i, data: partial.data }),
            (None, _) => Err(VinConversionError::MissingTxid),
            (Some(_), None) => Err(VinConversionError::MissingVout),
        }
    }
}

/// The partial output that knows everything the complete output holds.
impl From<Vout> for PartialVout {
    fn from(vout: Vout) -> (r: PartialVout)
        ensures
            r@ == partial_of_vout(vout@),
    {
        PartialVout { value: Some(vout.value), script_pubkey: Some(vout.script_pubkey), data: vout.data }
    }
}

impl vstd::std_specs::convert::FromSpecImpl<Vout> for PartialVout {
    open spec fn obeys_from_spec() -> bool {
        true
    }

    open spec fn from_spec(vout: Vout) -> PartialVout {
        PartialVout { value: Some(vout.value), script_pubkey: Some(vout.script_pubkey), data: vout.data }
    }
}

/// The complete output, if the partial output knows its amount and script.
impl TryFrom<PartialVout> for Vout {
    type Error = VoutConversionError;

    fn try_from(partial: PartialVout) -> (r: Result<Vout, VoutConversionError>)
        ensures
            r matches Ok(v) ==> complete_vout(partial@) == Ok::<VoutView, VoutConversionError>(v@),
            r matches Err(e) ==> complete_vout(partial@) == Err::<VoutView, VoutConversionError>(e),
    {
        let PartialVout { value, script_pubkey, data } = partial;
        let value = match value {
            Some(v) => v,
            None => return Err(VoutConversionError::MissingValue),
        };
        let script_pubkey = match script_pubkey {
            Some(s) => s,
            None => return Err(VoutConversionError::MissingScriptPubkey),
        };
        Ok(Vout { value, script_pubkey, data })
    }
}

impl vstd::std_specs::convert::TryFromSpecImpl<PartialVout> for Vout {
    open spec fn obeys_try_from_spec() -> bool {
        true
    }

    open spec fn try_from_spec(partial: PartialVout) -> Result<Vout, VoutConversionError> {
        match (partial.value, partial.script_pubkey) {
            (Some(v), Some(s)) => Ok(Vout { value: v, script_pubkey: s, data: partial.data }),
            (None, _) => Err(VoutConversionError::MissingValue),
            (Some(_), None) => Err(VoutConversionError::MissingScriptPubkey),
        }
    }
}

} // verus!
