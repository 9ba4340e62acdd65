use vstd::prelude::*;
use crate::lines::{lines_view, split_lines};
use crate::patterns::{first_group, regex_first_group, DEVICE_PATTERN};
use crate::text::{decode_lossy, lossy_text};

verus! {

/// A carriage return.
pub const CARRIAGE_RETURN: u8 = 13;

/// The device name on a line of the discovery tool's listing: the first
/// group of `DEVICE_PATTERN` in the decoded line.
pub open spec fn device_name(l: Seq<u8>) -> Option<Seq<char>> {
    first_group(DEVICE_PATTERN@, lossy_text(l))
}

/// A line without the carriage return that ends it, if any.
pub open spec fn strip_cr(l: Seq<u8>) -> Seq<u8> {
    if l.len() > 0 && l.last() == CARRIAGE_RETURN {
        l.drop_last()
    } else {
        l
    }
}

/// The names found on `ls`, in order; lines without a name are skipped.
pub open spec fn names_in(ls: Seq<Seq<u8>>) -> Seq<Seq<char>>
    decreases ls.len(),
{
    if ls.len() == 0 {
        Seq::empty()
    } else {
        let early = names_in(ls.drop_last());
        match device_name(ls.last()) {
            Some(n) => early.push(n),
            None => early,
        }
    }
}

/// The lines of a listing as the tool's text reads: complete lines lose a
/// carriage return before their newline; the unterminated last line is kept
/// as it is.
pub open spec fn listing_lines(t: Seq<u8>) -> Seq<Seq<u8>> {
    let (ls, rest) = split_lines(t);
    let stripped = ls.map_values(|l: Seq<u8>| strip_cr(l));
    if rest.len() == 0 {
        stripped
    } else {
        stripped.push(rest)
    }
}

/// The device names in the discovery tool's output, in the order listed.
pub open spec fn devices_in(t: Seq<u8>) -> Seq<Seq<char>> {
    names_in(listing_lines(t))
}

/// Reads the device name off one line of the listing, if it holds one.
pub fn parse_device_line(l: &[u8]) -> (r: Option<String>)
    ensures
        r is None <==> device_name(l@) is None,
        r matches Some(s) ==> device_name(l@) == Some(s@),
{
    let text = decode_lossy(l);
    match regex_first_group(DEVICE_PATTERN, text.as_str()) {
        Ok(name) => name,
        Err(_) => vstd::pervasive::unreached(),
    }
}

fn strip_cr_line(l: Vec<u8>) -> (r: Vec<u8>)
    ensures
        r@ == strip_cr(l@),
{
    let mut l = l;
    if l.len() > 0 && l[l.len() - 1] == CARRIAGE_RETURN {
        l.pop();
    }
    l
}

/// Parses the output of the discovery tool's auto-detect run into the device
/// names it lists, in order. Lines that do not match `DEVICE_PATTERN` are
/// skipped; no devices is a valid outcome.
pub fn parse_devices(stdout: &[u8]) -> (r: Vec<String>)
    ensures
        r@.map_values(|s: String| s@) == devices_in(stdout@),
{
    let mut joiner = crate::lines::LineReassembler::new();
    let complete = joiner.push(stdout);
    proof {
        assert(Seq::<u8>::empty() + stdout@ =~= stdout@);
    }
    let ghost ls = listing_lines(stdout@);
    let mut r: Vec<String> = Vec::new();
    let mut i: usize = 0;
    while i < complete.len()
        invariant
            i <= complete@.len(),
            lines_view(complete@) == split_lines(stdout@).0,
            ls == listing_lines(stdout@),
            r@.map_values(|s: String| s@) == names_in(ls.take(i as int)),
        decreases complete@.len() - i,
    {
        let line = strip_cr_line(complete[i].clone());
        proof {
            assert(complete@[i as int]@ == split_lines(stdout@).0[i as int]);
            assert(ls[i as int] == line@);
            assert(ls.take(i + 1).drop_last() =~= ls.take(i as int));
        }
        match parse_device_line(line.as_slice()) {
            Some(name) => {
                r.push(name);
            },
            None => {},
        }
        i = i + 1;
        assert(r@.map_values(|s: String| s@) =~= names_in(ls.take(i as int)));
    }
    match joiner.finish() {
        Some(last) => {
            proof {
                assert(ls.take(i + 1).drop_last() =~= ls.take(i as int));
                assert(ls.take(i + 1) =~= ls);
            }
            match parse_device_line(last.as_slice()) {
                Some(name) => {
                    r.push(name);
                },
                None => {},
            }
        },
        None => {
            assert(ls.take(i as int) =~= ls);
        },
    }
    assert(r@.map_values(|s: String| s@) =~= devices_in(stdout@));
    r
}

/// Why a device could not be chosen.
#[derive(Clone, Copy, Debug, PartialEq, Eq, Structural)]
pub enum SelectionError {
    /// Discovery found no device at all.
    NoDevices,
    /// The index is past the end of the list.
    IndexOutOfRange { index: usize, available: usize },
}

/// Picks the device at `index` from the discovered list.
pub fn select_device(devices: &Vec<String>, index: usize) -> (r: Result<String, SelectionError>)
    ensures
        devices@.len() == 0 ==> r == Err::<String, SelectionError>(SelectionError::NoDevices),
        devices@.len() > 0 && index >= devices@.len() ==> r == Err::<String, SelectionError>(
            SelectionError::IndexOutOfRange { index, available: devices@.len() as usize },
        ),
        index < devices@.len() ==> (r matches Ok(s) && s@ == devices@[index as int]@),
{
    if devices.len() == 0 {
        Err(SelectionError::NoDevices)
    } else if index >= devices.len() {
        Err(SelectionError::IndexOutOfRange { index, available: devices.len() })
    } else {
        Ok(devices[index].clone())
    }
}

} // verus!
