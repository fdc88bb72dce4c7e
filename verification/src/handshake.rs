//! Channel handshake validation.
//!
//! A proposed channel is accepted exactly when its ordering mode is
//! `Unordered` and, where a counterparty version is offered (the try/ack
//! side), that version equals the canonical application version.  On the
//! initiating side no counterparty version exists yet, so only the ordering
//! is checked: the asymmetry is deliberate, only the responder's offered
//! version is gated.  A successful open returns the canonical version this
//! side advertises, which need not be the counterparty's string.

use vstd::prelude::*;

use crate::wire::app_version;
use crate::wire::app_version_vec;

verus! {

/// The delivery ordering a channel was proposed with.
#[derive(Clone, Copy, PartialEq, Eq, Structural, Debug)]
pub enum ChannelOrder {
    Ordered,
    Unordered,
}

/// Why a handshake was rejected.
#[derive(Clone, Copy, PartialEq, Eq, Structural, Debug)]
pub enum SimpleIcaError {
    /// The proposed ordering is not the single supported mode.
    InvalidChannelOrder,
    /// The counterparty's version differs from the canonical one.
    InvalidVersion,
}

/// The single ordering mode this application supports.
pub open spec fn supported_order() -> ChannelOrder {
    ChannelOrder::Unordered
}

/// Accepts exactly the single supported ordering mode.
pub fn check_order(order: &ChannelOrder) -> (r: Result<(), SimpleIcaError>)
    ensures
        r is Ok <==> *order == supported_order(),
        r is Err ==> r == Err::<(), SimpleIcaError>(SimpleIcaError::InvalidChannelOrder),
{
    if *order == ChannelOrder::Unordered {
        Ok(())
    } else {
        Err(SimpleIcaError::InvalidChannelOrder)
    }
}

/// Accepts exactly the canonical application version.
pub fn check_version(version: &Vec<u8>) -> (r: Result<(), SimpleIcaError>)
    ensures
        r is Ok <==> version@ == app_version(),
        r is Err ==> r == Err::<(), SimpleIcaError>(SimpleIcaError::InvalidVersion),
{
    let canonical = app_version_vec();
    if crate::state::bytes_eq(version, &canonical) {
        Ok(())
    } else {
        Err(SimpleIcaError::InvalidVersion)
    }
}

/// Validates a proposed channel and, on success, returns the canonical
/// version this side will speak.  The ordering must be the supported one;
/// a counterparty version, when present, must be the canonical version.
pub fn ibc_channel_open(order: &ChannelOrder, counterparty_version: &Option<Vec<u8>>) -> (r:
    Result<Vec<u8>, SimpleIcaError>)
    ensures
        *order != supported_order() ==> r == Err::<Vec<u8>, SimpleIcaError>(
            SimpleIcaError::InvalidChannelOrder,
        ),
        *order == supported_order() && (counterparty_version matches Some(v) && v@
            != app_version()) ==> r == Err::<Vec<u8>, SimpleIcaError>(
            SimpleIcaError::InvalidVersion,
        ),
        *order == supported_order() && (counterparty_version matches Some(v) ==> v@
            == app_version()) ==> (r matches Ok(out) && out@ == app_version()),
{
    check_order(order)?;
    match counterparty_version {
        Some(v) => {
            check_version(v)?;
        },
        None => {},
    }
    Ok(app_version_vec())
}

} // verus!
