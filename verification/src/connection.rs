//! Framing of a connection's read buffer.

use vstd::prelude::*;
use crate::frame::{Cursor, Error, Failure, Frame, error_is, spec_check, spec_parse};

verus! {

/// Tries to take one frame off the front of `buffer`: scans it first and,
/// when it lies whole there, parses it from the start.  `Ok(None)` means the
/// buffer does not yet hold a whole frame; `Ok(Some((frame, n)))` gives the
/// frame and the number of bytes the scan covered, which the caller drops
/// from the buffer.
pub fn parse_frame(buffer: &[u8]) -> (res: Result<Option<(Frame, usize)>, Error>)
    requires
        spec_check(buffer@, 0) is Ok ==> !(spec_parse(buffer@, 0) matches Err(
            Failure::Unsupported,
        )),
    ensures
        match spec_check(buffer@, 0) {
            Ok(e) => match spec_parse(buffer@, 0) {
                Ok((f, _)) => res matches Ok(Some((fr, n))) && fr@ == f && n == e,
                Err(fl) => res matches Err(err) && error_is(err, fl),
            },
            Err(Failure::Incomplete) => res matches Ok(None),
            Err(fl) => res matches Err(err) && error_is(err, fl),
        },
{
    let mut buf = Cursor::new(buffer);
    match Frame::check(&mut buf) {
        Ok(()) => {
            let len = buf.position();
            buf.set_position(0);
            match Frame::parse(&mut buf) {
                Ok(frame) => Ok(Some((frame, len))),
                Err(e) => Err(e),
            }
        },
        Err(Error::Incomplete) => Ok(None),
        Err(e) => Err(e),
    }
}

} // verus!
