//! A message whose values have been read.
use crate::message_builder::DynamicHeader;
use crate::message_builder::MessageType;
use crate::params::Param;
use crate::wire::UnixFd;
use vstd::prelude::*;

verus! {

/// A message with the values of its body.
#[derive(Debug)]
pub struct Message {
    pub typ: MessageType,
    pub flags: u8,
    pub dynheader: DynamicHeader,
    pub params: Vec<Param>,
    pub raw_fds: Vec<UnixFd>,
}

} // verus!
