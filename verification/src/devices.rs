//! Reading the list of video capture devices from the text a capture tool
//! prints when asked to list them.
//!
//! The listing has a header line for the video devices and one for the
//! audio devices; each device line between them holds `] [` and ends with
//! the device name after the last `] `.

use vstd::prelude::*;
use vstd::slice::slice_subrange;
use vstd::string::StringSliceAdditionalSpecFns;
use vstd::utf8::{decode_utf8, valid_utf8};
use crate::bytes::{
    after_last, contains_bytes, contains_in, find_byte, find_byte_facts, find_in,
    last_occurrence, last_occurrence_facts, last_occurrence_in,
};
use crate::webcam::WebcamPlayer;

verus! {

/// Text of a byte string read as UTF-8, each invalid sequence replaced by
/// U+FFFD.
pub uninterp spec fn lossy_text(bytes: Seq<u8>) -> Seq<char>;

/// `String::from_utf8_lossy`: the text of `bytes`, invalid sequences
/// replaced by U+FFFD; for valid UTF-8 it is the decoded text itself.
#[verifier::external_body]
fn lossy_string(bytes: &[u8]) -> (s: String)
    ensures
        s@ == lossy_text(bytes@),
        valid_utf8(bytes@) ==> s@ == decode_utf8(bytes@),
{
    String::from_utf8_lossy(bytes).into_owned()
}

/// A line without the carriage return that ended it, if any.
pub open spec fn strip_cr(l: Seq<u8>) -> Seq<u8> {
    if l.len() > 0 && l.last() == 13 {
        l.drop_last()
    } else {
        l
    }
}

/// The lines of a text: split at each line feed, a carriage return before
/// the line feed dropped, and no empty line after a final line feed.
pub open spec fn text_lines(s: Seq<u8>) -> Seq<Seq<u8>>
    decreases s.len(),
{
    if s.len() == 0 {
        seq![]
    } else {
        let i = find_byte(s, 10) as int;
        if i >= s.len() {
            seq![s]
        } else {
            seq![strip_cr(s.take(i))] + text_lines(s.skip(i + 1))
        }
    }
}

pub open spec fn video_header() -> Seq<u8> {
    "AVFoundation video devices:".spec_bytes()
}

pub open spec fn audio_header() -> Seq<u8> {
    "AVFoundation audio devices:".spec_bytes()
}

pub open spec fn device_marker() -> Seq<u8> {
    "] [".spec_bytes()
}

pub open spec fn name_separator() -> Seq<u8> {
    "] ".spec_bytes()
}

/// Device names found in `lines`: after a line holding the video header,
/// each line holding `] [` names a device by what follows its last `] `;
/// a line holding the audio header ends the search.
pub open spec fn scan_devices(lines: Seq<Seq<u8>>, in_video: bool) -> Seq<Seq<u8>>
    decreases lines.len(),
{
    if lines.len() == 0 {
        seq![]
    } else {
        let l = lines[0];
        if contains_bytes(l, video_header()) {
            scan_devices(lines.drop_first(), true)
        } else if contains_bytes(l, audio_header()) {
            seq![]
        } else if in_video && contains_bytes(l, device_marker()) {
            seq![after_last(l, name_separator())] + scan_devices(lines.drop_first(), in_video)
        } else {
            scan_devices(lines.drop_first(), in_video)
        }
    }
}

/// The device names of a listing, as text; a single `Default Camera` when
/// the listing names none.
pub open spec fn device_list(listing: Seq<u8>) -> Seq<Seq<char>> {
    let names = scan_devices(text_lines(listing), false);
    if names.len() == 0 {
        seq!["Default Camera"@]
    } else {
        names.map_values(|n: Seq<u8>| lossy_text(n))
    }
}

/// Byte ranges `(start, end)` of the lines of `text`.
fn line_ranges(text: &[u8]) -> (r: Vec<(usize, usize)>)
    ensures
        r@.len() == text_lines(text@).len(),
        forall|k: int|
            #![trigger r@[k]]
            0 <= k < r@.len() ==> {
                &&& r@[k].0 <= r@[k].1 <= text@.len()
                &&& text@.subrange(r@[k].0 as int, r@[k].1 as int) == text_lines(text@)[k]
            },
{
    let len = text.len();
    let mut out: Vec<(usize, usize)> = Vec::new();
    let ghost mut done: Seq<Seq<u8>> = seq![];
    let mut pos: usize = 0;
    assert(text@.skip(0) =~= text@);
    assert(done + text_lines(text@) =~= text_lines(text@));
    while pos < len
        invariant
            len == text@.len(),
            pos <= len,
            out@.len() == done.len(),
            forall|k: int|
                #![trigger out@[k]]
                0 <= k < out@.len() ==> {
                    &&& out@[k].0 <= out@[k].1 <= text@.len()
                    &&& text@.subrange(out@[k].0 as int, out@[k].1 as int) == done[k]
                },
            done + text_lines(text@.skip(pos as int)) == text_lines(text@),
        decreases len - pos,
    {
        let ghost sub = text@.skip(pos as int);
        assert(text@.subrange(pos as int, len as int) =~= sub);
        let j = find_in(text, pos, len, 10);
        proof {
            find_byte_facts(sub, 10);
        }
        if j == len {
            out.push((pos, len));
            proof {
                assert(text_lines(sub) == seq![sub]);
                assert(text@.skip(len as int) =~= Seq::<u8>::empty());
                done = done.push(sub);
                assert(done + text_lines(text@.skip(len as int)) =~= done);
            }
            pos = len;
        } else {
            let end = if j > pos && text[j - 1] == 13 {
                j - 1
            } else {
                j
            };
            proof {
                let i = (j - pos) as int;
                assert(sub.take(i) =~= text@.subrange(pos as int, j as int));
                assert(sub.skip(i + 1) =~= text@.skip(j + 1));
                assert(strip_cr(sub.take(i)) =~= text@.subrange(pos as int, end as int));
                assert(text_lines(sub) == seq![strip_cr(sub.take(i))] + text_lines(sub.skip(i + 1)));
                done = done.push(strip_cr(sub.take(i)));
                assert(done + text_lines(text@.skip(j + 1)) =~= text_lines(text@));
            }
            out.push((pos, end));
            pos = j + 1;
        }
    }
    proof {
        assert(text@.skip(pos as int) =~= Seq::<u8>::empty());
        assert(done =~= text_lines(text@));
    }
    out
}

/// What a listing line says.
enum LineKind {
    VideoHeader,
    AudioHeader,
    /// A device line whose name starts at this byte.
    Device(usize),
    Other,
}

/// Classifies the line `listing[a..b]`; device lines are only looked for
/// when `in_video` holds.
fn classify_line(listing: &[u8], a: usize, b: usize, in_video: bool) -> (kind: LineKind)
    requires
        a <= b <= listing@.len(),
    ensures
        ({
            let l = listing@.subrange(a as int, b as int);
            match kind {
                LineKind::VideoHeader => contains_bytes(l, video_header()),
                LineKind::AudioHeader => !contains_bytes(l, video_header()) && contains_bytes(
                    l,
                    audio_header(),
                ),
                LineKind::Device(start) => !contains_bytes(l, video_header()) && !contains_bytes(
                    l,
                    audio_header(),
                ) && in_video && contains_bytes(l, device_marker()) && a <= start <= b
                    && listing@.subrange(start as int, b as int) == after_last(l, name_separator()),
                LineKind::Other => !contains_bytes(l, video_header()) && !contains_bytes(
                    l,
                    audio_header(),
                ) && !(in_video && contains_bytes(l, device_marker())),
            }
        }),
{
    let ghost l = listing@.subrange(a as int, b as int);
    if contains_in(listing, a, b, "AVFoundation video devices:".as_bytes()) {
        return LineKind::VideoHeader;
    }
    if contains_in(listing, a, b, "AVFoundation audio devices:".as_bytes()) {
        return LineKind::AudioHeader;
    }
    if !(in_video && contains_in(listing, a, b, "] [".as_bytes())) {
        return LineKind::Other;
    }
    let sep = "] ".as_bytes();
    let start = match last_occurrence_in(listing, a, b, sep) {
        Some(off) => {
            proof {
                last_occurrence_facts(l, sep@, l.len() - sep@.len());
            }
            a + off + sep.len()
        },
        None => a,
    };
    proof {
        let off = last_occurrence(l, sep@);
        if off >= 0 {
            assert(l.skip(off + sep@.len()) =~= listing@.subrange(start as int, b as int));
        } else {
            assert(l =~= listing@.subrange(start as int, b as int));
        }
    }
    LineKind::Device(start)
}

impl WebcamPlayer {
    /// The capture devices named in a device listing (see `device_list`).
    pub fn list_devices(listing: &[u8]) -> (devices: Vec<String>)
        ensures
            devices@.map_values(|s: String| s@) == device_list(listing@),
            forall|i: int|
                0 <= i < scan_devices(text_lines(listing@), false).len() && valid_utf8(
                    scan_devices(text_lines(listing@), false)[i],
                ) ==> #[trigger] devices@[i]@ == decode_utf8(
                    scan_devices(text_lines(listing@), false)[i],
                ),
    {
        let lines = line_ranges(listing);
        let ghost all = text_lines(listing@);
        let mut devices: Vec<String> = Vec::new();
        let ghost mut found: Seq<Seq<u8>> = seq![];
        let mut in_video = false;
        let mut k: usize = 0;
        assert(all.skip(0) =~= all);
        while k < lines.len()
            invariant
                lines@.len() == all.len(),
                all == text_lines(listing@),
                forall|m: int|
                    #![trigger lines@[m]]
                    0 <= m < lines@.len() ==> {
                        &&& lines@[m].0 <= lines@[m].1 <= listing@.len()
                        &&& listing@.subrange(lines@[m].0 as int, lines@[m].1 as int) == all[m]
                    },
                k <= lines@.len(),
                devices@.len() == found.len(),
                forall|m: int| 0 <= m < found.len() ==> #[trigger] devices@[m]@ == lossy_text(found[m]),
                forall|m: int|
                    0 <= m < found.len() && valid_utf8(found[m]) ==> #[trigger] devices@[m]@
                        == decode_utf8(found[m]),
                found + scan_devices(all.skip(k as int), in_video) == scan_devices(all, false),
            decreases lines@.len() - k,
        {
            let (a, b) = lines[k];
            let ghost l = all[k as int];
            let ghost rest = all.skip(k as int);
            assert(rest[0] == l);
            assert(rest.drop_first() =~= all.skip(k + 1));
            match classify_line(listing, a, b, in_video) {
                LineKind::VideoHeader => {
                    in_video = true;
                },
                LineKind::AudioHeader => {
                    assert(all.skip(lines@.len() as int) =~= Seq::<Seq<u8>>::empty());
                    k = lines.len();
                    continue;
                },
                LineKind::Device(start) => {
                    let part = slice_subrange(listing, start, b);
                    let name = lossy_string(part);
                    devices.push(name);
                    proof {
                        assert(part@ == after_last(l, name_separator()));
                        found = found.push(after_last(l, name_separator()));
                        assert(found + scan_devices(all.skip(k + 1), in_video) =~= scan_devices(
                            all,
                            false,
                        ));
                    }
                },
                LineKind::Other => {},
            }
            k = k + 1;
        }
        proof {
            if k == lines@.len() {
                assert(all.skip(k as int) =~= Seq::<Seq<u8>>::empty());
                assert(found =~= scan_devices(all, false));
            }
        }
        if devices.len() == 0 {
            devices.push("Default Camera".to_owned());
        }
        assert(devices@.map_values(|s: String| s@) =~= device_list(listing@));
        devices
    }
}


/// Without a video header line, a listing names no device but the default
/// camera.
pub proof fn no_video_section_default_camera(listing: Seq<u8>)
    requires
        forall|i: int|
            0 <= i < text_lines(listing).len() ==> !contains_bytes(
                #[trigger] text_lines(listing)[i],
                video_header(),
            ),
    ensures
        device_list(listing) == seq!["Default Camera"@],
{
    scan_without_header(text_lines(listing));
}

proof fn scan_without_header(lines: Seq<Seq<u8>>)
    requires
        forall|i: int| 0 <= i < lines.len() ==> !contains_bytes(#[trigger] lines[i], video_header()),
    ensures
        scan_devices(lines, false) == Seq::<Seq<u8>>::empty(),
    decreases lines.len(),
{
    if lines.len() > 0 {
        assert(!contains_bytes(lines[0], video_header()));
        assert forall|i: int| 0 <= i < lines.drop_first().len() implies !contains_bytes(
            #[trigger] lines.drop_first()[i],
            video_header(),
        ) by {
            assert(lines.drop_first()[i] == lines[i + 1]);
        }
        scan_without_header(lines.drop_first());
    }
}

} // verus!
