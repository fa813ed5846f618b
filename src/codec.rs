//! Framing of commands and replies on the modem's byte stream.
use vstd::prelude::*;
use crate::at::{AtCommand, AtResponse, command_text, response_models};
use crate::parse::{responses, spec_responses};
use crate::text::{push_char, push_str};

verus! {

use vstd::utf8::encode_utf8;

/// Encodes commands for the modem and decodes its replies.
pub struct AtCodec;

/// The frame of a command: CR LF, the command, CR LF.
pub open spec fn frame_text(c: AtCommand) -> Seq<char> {
    seq!['\r', '\n'] + command_text(c) + seq!['\r', '\n']
}

impl AtCodec {
    /// The text sent for a command.
    pub fn encode_frame(&self, item: &AtCommand) -> (r: String)
        ensures
            r@ == frame_text(*item),
    {
        let mut out = String::new();
        push_char(&mut out, '\r');
        push_char(&mut out, '\n');
        let body = item.to_string();
        push_str(&mut out, body.as_str());
        push_char(&mut out, '\r');
        push_char(&mut out, '\n');
        assert(out@ =~= frame_text(*item));
        out
    }

    /// Appends the UTF-8 bytes of a command's frame to `dst`.
    pub fn encode(&mut self, item: &AtCommand, dst: &mut Vec<u8>)
        ensures
            final(dst)@ == old(dst)@ + encode_utf8(frame_text(*item)),
    {
        let t = self.encode_frame(item);
        let mut b = t.as_str().as_bytes_vec();
        dst.append(&mut b);
    }

    /// Takes the complete lines out of `src` and returns their responses.
    /// Nothing is taken while the last line is incomplete; when complete
    /// lines hold no response, they are taken and `None` is returned.
    pub fn decode(&mut self, src: &mut Vec<u8>) -> (r: Option<Vec<AtResponse>>)
        ensures
            old(src)@.len() == 0 || old(src)@.last() != 0x0A ==> r is None && final(src)@ == old(src)@,
            old(src)@.len() > 0 && old(src)@.last() == 0x0A ==> {
                &&& final(src)@.len() == 0
                &&& spec_responses(old(src)@).len() == 0 ==> r is None
                &&& spec_responses(old(src)@).len() > 0 ==> (r matches Some(v) && response_models(v@) == spec_responses(
                    old(src)@,
                ))
            },
    {
        match responses(src.as_slice()) {
            None => None,
            Some(v) => {
                src.clear();
                if v.len() == 0 {
                    None
                } else {
                    Some(v)
                }
            },
        }
    }
}

} // verus!
