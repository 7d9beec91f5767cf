//! Small helpers shared across the library.

use vstd::prelude::*;

verus! {

/// The view of an optional viewable value: `Some` maps to the inner view.
pub open spec fn opt_view<T: View>(o: Option<T>) -> Option<<T as View>::V> {
    match o {
        Some(v) => Some(v@),
        None => None,
    }
}

/// The byte sequence with one trailing line break removed: a final CR LF
/// pair, or a single final LF or CR; anything else is left unchanged.
pub open spec fn strip_line_break(s: Seq<u8>) -> Seq<u8> {
    if s.len() >= 2 && s[s.len() - 2] == 13u8 && s[s.len() - 1] == 10u8 {
        s.take(s.len() - 2)
    } else if s.len() >= 1 && (s[s.len() - 1] == 10u8 || s[s.len() - 1] == 13u8) {
        s.take(s.len() - 1)
    } else {
        s
    }
}

/// Removes one trailing line break (CR LF, LF, or CR) from a buffer, as a
/// text-file reader does before handing key material to the codecs.
pub fn strip_trailing_line_break(buf: &mut Vec<u8>)
    ensures
        final(buf)@ == strip_line_break(old(buf)@),
{
    let n = buf.len();
    if n >= 2 && buf[n - 2] == 13u8 && buf[n - 1] == 10u8 {
        buf.truncate(n - 2);
    } else if n >= 1 && (buf[n - 1] == 10u8 || buf[n - 1] == 13u8) {
        buf.truncate(n - 1);
    }
    proof {
        assert(buf@ =~= strip_line_break(old(buf)@));
    }
}

} // verus!
