//! The file browser: which directory entries are listed, in what order,
//! how the selection moves and scrolls, and how long paths are shortened.

use vstd::prelude::*;
use vstd::string::{StringExecFns, StringSliceAdditionalSpecFns};
use vstd::utf8::{
    decode_utf8, encode_utf8, encode_utf8_decode_utf8, encode_utf8_valid_utf8,
    is_char_boundary, is_char_boundary_iff_not_is_continuation_byte,
    is_char_boundary_start_end_of_seq, valid_utf8, valid_utf8_split,
};

verus! {

/// Text lowered to lower case by the Unicode lower-case mapping.
pub uninterp spec fn lowercase_text(s: Seq<char>) -> Seq<char>;

/// `c` with an ASCII capital letter turned into its small letter.
pub open spec fn ascii_lower(c: char) -> char {
    if 'A' <= c <= 'Z' {
        ((c as u32) + 32) as char
    } else {
        c
    }
}

/// Whether every character of `s` is ASCII.
pub open spec fn all_ascii(s: Seq<char>) -> bool {
    forall|i: int| 0 <= i < s.len() ==> (s[i] as u32) < 128
}

/// `str::to_lowercase`: `s` in lower case by the Unicode mapping, which on
/// ASCII text turns each capital letter into its small letter and keeps
/// every other character.
#[verifier::external_body]
fn lowercase(s: &str) -> (r: String)
    ensures
        r@ == lowercase_text(s@),
        all_ascii(s@) ==> r@ == s@.map_values(|c: char| ascii_lower(c)),
{
    s.to_lowercase()
}

/// File extensions of the videos the browser lists.
pub open spec fn video_extensions() -> Seq<Seq<char>> {
    seq!["mp4"@, "mkv"@, "avi"@, "webm"@, "mov"@, "wmv"@, "flv"@, "m4v"@]
}

/// Index of the last byte `b` in `s`, or -1.
pub open spec fn last_byte_index(s: Seq<u8>, b: u8) -> int
    decreases s.len(),
{
    if s.len() == 0 {
        -1
    } else if s.last() == b {
        s.len() - 1
    } else {
        last_byte_index(s.drop_last(), b)
    }
}

/// The extension of a file name given as UTF-8 bytes: what follows its
/// last `.`, when that `.` is not the first byte.
pub open spec fn extension_of(name: Seq<u8>) -> Option<Seq<char>> {
    let k = last_byte_index(name, 46);
    if k > 0 {
        Some(decode_utf8(name.skip(k + 1)))
    } else {
        None
    }
}

/// Whether a file name, given as UTF-8 bytes, has a video extension, in any
/// letter case.
pub open spec fn is_video_name(name: Seq<u8>) -> bool {
    match extension_of(name) {
        Some(ext) => video_extensions().contains(lowercase_text(ext)),
        None => false,
    }
}

/// Whether a directory entry is listed: directories unless hidden (their
/// name starts with `.`), files when they are videos.
pub open spec fn is_listed(name: Seq<u8>, is_dir: bool) -> bool {
    if is_dir {
        !(name.len() > 0 && name[0] == 46)
    } else {
        is_video_name(name)
    }
}

proof fn last_byte_index_facts(s: Seq<u8>, b: u8)
    ensures
        -1 <= last_byte_index(s, b) < s.len(),
        last_byte_index(s, b) >= 0 ==> s[last_byte_index(s, b)] == b,
        forall|j: int| last_byte_index(s, b) < j < s.len() ==> s[j] != b,
    decreases s.len(),
{
    if s.len() > 0 && s.last() != b {
        last_byte_index_facts(s.drop_last(), b);
        assert forall|j: int| last_byte_index(s, b) < j < s.len() implies s[j] != b by {
            if j < s.len() - 1 {
                assert(s[j] == s.drop_last()[j]);
            }
        }
    }
}

/// Index of the last byte `b` in `s`, if any.
fn rfind_byte(s: &[u8], b: u8) -> (r: Option<usize>)
    ensures
        match r {
            Some(k) => k as int == last_byte_index(s@, b),
            None => last_byte_index(s@, b) == -1,
        },
{
    let mut i = s.len();
    assert(s@.take(i as int) =~= s@);
    while i > 0
        invariant
            i <= s@.len(),
            last_byte_index(s@, b) == last_byte_index(s@.take(i as int), b),
        decreases i,
    {
        let ghost t = s@.take(i as int);
        assert(t.drop_last() =~= s@.take(i - 1));
        if s[i - 1] == b {
            return Some(i - 1);
        }
        i = i - 1;
    }
    None
}

/// Whether `ext` is one of the video extensions.
fn is_video_extension(ext: &String) -> (r: bool)
    ensures
        r == video_extensions().contains(ext@),
{
    let known: Vec<String> = vec![
        "mp4".to_owned(),
        "mkv".to_owned(),
        "avi".to_owned(),
        "webm".to_owned(),
        "mov".to_owned(),
        "wmv".to_owned(),
        "flv".to_owned(),
        "m4v".to_owned(),
    ];
    assert(known@.map_values(|s: String| s@) =~= video_extensions());
    let mut i: usize = 0;
    while i < known.len()
        invariant
            i <= known@.len(),
            known@.map_values(|s: String| s@) == video_extensions(),
            forall|j: int| 0 <= j < i ==> known@[j]@ != ext@,
        decreases known@.len() - i,
    {
        if *ext == known[i] {
            assert(video_extensions()[i as int] == ext@);
            return true;
        }
        i = i + 1;
    }
    assert forall|j: int| 0 <= j < video_extensions().len() implies video_extensions()[j]
        != ext@ by {
        assert(video_extensions()[j] == known@[j]@);
    }
    false
}

/// Whether a file name has a video extension (see `is_video_name`).
pub fn is_video_file(name: &str) -> (r: bool)
    ensures
        r == is_video_name(name.spec_bytes()),
        extension_of(name.spec_bytes()) matches Some(ext) ==> (all_ascii(ext) ==> r
            == video_extensions().contains(ext.map_values(|c: char| ascii_lower(c)))),
{
    let bytes = name.as_bytes();
    let ghost sb = name.spec_bytes();
    proof {
        last_byte_index_facts(sb, 46);
        encode_utf8_valid_utf8(name@);
    }
    match rfind_byte(bytes, 46) {
        None => false,
        Some(k) => {
            if k == 0 {
                return false;
            }
            proof {
                is_char_boundary_iff_not_is_continuation_byte(sb, k as int);
            }
            let (_, rest) = name.split_at(k);
            let ghost rb = rest.spec_bytes();
            proof {
                valid_utf8_split(sb, k as int);
                assert(rb =~= sb.subrange(k as int, sb.len() as int));
                if rb.len() == 1 {
                    is_char_boundary_start_end_of_seq(rb);
                } else {
                    reveal_with_fuel(is_char_boundary, 2);
                }
                assert(is_char_boundary(rb, 1));
            }
            let (_, ext) = rest.split_at(1);
            proof {
                assert(ext.spec_bytes() =~= sb.skip(k + 1));
                encode_utf8_decode_utf8(ext@);
            }
            let lower = lowercase(ext);
            is_video_extension(&lower)
        },
    }
}

/// Whether a directory entry is listed (see `is_listed`).
pub fn keep_entry(name: &str, is_dir: bool) -> (r: bool)
    ensures
        r == is_listed(name.spec_bytes(), is_dir),
{
    if is_dir {
        let bytes = name.as_bytes();
        !(bytes.len() > 0 && bytes[0] == 46)
    } else {
        is_video_file(name)
    }
}

/// The selection after moving down: one further, but not past the last
/// entry; unchanged in an empty list.
pub fn next_selection(selected: usize, len: usize) -> (r: usize)
    requires
        len > 0 ==> selected < usize::MAX,
    ensures
        len == 0 ==> r == selected,
        len > 0 ==> r == if selected + 1 < len - 1 {
            selected + 1
        } else {
            len - 1
        },
{
    if len == 0 {
        selected
    } else if selected + 1 < len - 1 {
        selected + 1
    } else {
        len - 1
    }
}

/// The selection after moving up: one back, but not before the first.
pub fn previous_selection(selected: usize) -> (r: usize)
    ensures
        r == if selected > 0 {
            selected - 1
        } else {
            0
        },
{
    selected.saturating_sub(1)
}

/// The scroll offset that keeps the selection in a window of `visible`
/// rows: unchanged when the selection is in view, moved up to it when it is
/// above, and moved down so it is the last row when it is below.
pub fn scroll_offset(selected: usize, offset: usize, visible: usize) -> (r: usize)
    requires
        selected >= offset ==> offset + visible <= usize::MAX,
        selected >= offset + visible ==> selected - visible + 1 <= usize::MAX,
    ensures
        selected < offset ==> r == selected,
        offset <= selected < offset + visible ==> r == offset,
        selected >= offset + visible ==> r == selected - visible + 1,
{
    if selected < offset {
        selected
    } else if selected >= offset + visible {
        selected - visible + 1
    } else {
        offset
    }
}


/// A directory entry as the browser lists it.
pub struct FileEntry {
    pub name: String,
    pub is_dir: bool,
}

/// Whether byte string `a` sorts strictly before `b`, comparing byte by
/// byte and a proper prefix first.
pub open spec fn bytes_less(a: Seq<u8>, b: Seq<u8>) -> bool
    decreases a.len(),
{
    if a.len() == 0 {
        b.len() > 0
    } else if b.len() == 0 {
        false
    } else if a[0] != b[0] {
        a[0] < b[0]
    } else {
        bytes_less(a.drop_first(), b.drop_first())
    }
}

/// The sort key of an entry: whether it is a directory, and the UTF-8
/// bytes of its name in lower case.
pub open spec fn entry_key(e: FileEntry) -> (bool, Seq<u8>) {
    (e.is_dir, encode_utf8(lowercase_text(e.name@)))
}

/// Whether key `a` sorts strictly before key `b`: directories before files,
/// and otherwise by lower-case name.
pub open spec fn key_before(a: (bool, Seq<u8>), b: (bool, Seq<u8>)) -> bool {
    (a.0 && !b.0) || (a.0 == b.0 && bytes_less(a.1, b.1))
}

/// Whether `order` lists each index of `0..n` exactly once.
pub open spec fn is_permutation(order: Seq<usize>, n: nat) -> bool {
    &&& order.len() == n
    &&& forall|i: int| 0 <= i < order.len() ==> order[i] < n
    &&& forall|i: int, j: int| 0 <= i < j < order.len() ==> order[i] != order[j]
}

/// Whether listing `keys` in `order` is sorted, keeping the given order of
/// entries with equal keys.
pub open spec fn is_stable_sorted(keys: Seq<(bool, Seq<u8>)>, order: Seq<usize>) -> bool {
    &&& forall|i: int, j: int|
        #![trigger order[i], order[j]]
        0 <= i < j < order.len() ==> !key_before(keys[order[j] as int], keys[order[i] as int])
    &&& forall|i: int, j: int|
        #![trigger order[i], order[j]]
        0 <= i < j < order.len() && !key_before(keys[order[i] as int], keys[order[j] as int])
            ==> order[i] < order[j]
}

proof fn bytes_less_irreflexive(a: Seq<u8>)
    ensures
        !bytes_less(a, a),
    decreases a.len(),
{
    if a.len() > 0 {
        bytes_less_irreflexive(a.drop_first());
    }
}

proof fn bytes_less_transitive(a: Seq<u8>, b: Seq<u8>, c: Seq<u8>)
    requires
        bytes_less(a, b),
        bytes_less(b, c),
    ensures
        bytes_less(a, c),
    decreases a.len(),
{
    if a.len() > 0 && b.len() > 0 && c.len() > 0 && a[0] == b[0] && b[0] == c[0] {
        bytes_less_transitive(a.drop_first(), b.drop_first(), c.drop_first());
    }
}

proof fn bytes_less_total(a: Seq<u8>, b: Seq<u8>)
    ensures
        a == b || bytes_less(a, b) || bytes_less(b, a),
    decreases a.len(),
{
    if a.len() > 0 && b.len() > 0 && a[0] == b[0] {
        bytes_less_total(a.drop_first(), b.drop_first());
        if a.drop_first() == b.drop_first() {
            assert(a =~= seq![a[0]] + a.drop_first());
            assert(b =~= seq![b[0]] + b.drop_first());
        }
    } else if a.len() == 0 && b.len() == 0 {
        assert(a =~= b);
    }
}

/// Keys that neither sorts before are equal; `key_before` is transitive.
proof fn key_order_facts(a: (bool, Seq<u8>), b: (bool, Seq<u8>), c: (bool, Seq<u8>))
    ensures
        !key_before(a, a),
        !key_before(a, b) && !key_before(b, a) ==> a == b,
        key_before(a, b) && key_before(b, c) ==> key_before(a, c),
{
    bytes_less_irreflexive(a.1);
    bytes_less_total(a.1, b.1);
    if key_before(a, b) && key_before(b, c) && a.0 == b.0 && b.0 == c.0 {
        bytes_less_transitive(a.1, b.1, c.1);
    }
}

/// Whether byte string `a` sorts strictly before `b`.
fn less_bytes(a: &[u8], b: &[u8]) -> (r: bool)
    ensures
        r == bytes_less(a@, b@),
{
    let mut i: usize = 0;
    assert(a@.skip(0) =~= a@ && b@.skip(0) =~= b@);
    while i < a.len() && i < b.len() && a[i] == b[i]
        invariant
            i <= a@.len(),
            i <= b@.len(),
            bytes_less(a@, b@) == bytes_less(a@.skip(i as int), b@.skip(i as int)),
        decreases a@.len() - i,
    {
        assert(a@.skip(i as int).drop_first() =~= a@.skip(i + 1));
        assert(b@.skip(i as int).drop_first() =~= b@.skip(i + 1));
        i = i + 1;
    }
    if i == a.len() {
        i < b.len()
    } else if i == b.len() {
        false
    } else {
        a[i] < b[i]
    }
}

/// The order in which the browser lists `entries`: the indices of the
/// entries, directories first, each group by lower-case name, entries with
/// equal keys kept in their given order.
pub fn listing_order(entries: &Vec<FileEntry>) -> (order: Vec<usize>)
    ensures
        is_permutation(order@, entries@.len()),
        is_stable_sorted(entries@.map_values(|e: FileEntry| entry_key(e)), order@),
{
    let ghost keys = entries@.map_values(|e: FileEntry| entry_key(e));
    let n = entries.len();
    let mut names: Vec<Vec<u8>> = Vec::new();
    let mut k: usize = 0;
    while k < n
        invariant
            n == entries@.len(),
            keys == entries@.map_values(|e: FileEntry| entry_key(e)),
            k <= n,
            names@.len() == k,
            forall|j: int| 0 <= j < k ==> #[trigger] names@[j]@ == keys[j].1,
        decreases n - k,
    {
        let lower = lowercase(entries[k].name.as_str());
        names.push(vstd::slice::slice_to_vec(lower.as_str().as_bytes()));
        k = k + 1;
    }
    let mut order: Vec<usize> = Vec::new();
    let mut i: usize = 0;
    while i < n
        invariant
            n == entries@.len(),
            keys == entries@.map_values(|e: FileEntry| entry_key(e)),
            names@.len() == n,
            forall|j: int| 0 <= j < n ==> #[trigger] names@[j]@ == keys[j].1,
            i <= n,
            is_permutation(order@, i as nat),
            is_stable_sorted(keys, order@),
        decreases n - i,
    {
        let ghost ki = keys[i as int];
        let mut p: usize = 0;
        while p < order.len() && !(entries[i].is_dir && !entries[order[p]].is_dir) && !(
        entries[i].is_dir == entries[order[p]].is_dir && less_bytes(
            names[i].as_slice(),
            names[order[p]].as_slice(),
        ))
            invariant
                n == entries@.len(),
                keys == entries@.map_values(|e: FileEntry| entry_key(e)),
                names@.len() == n,
                forall|j: int| 0 <= j < n ==> #[trigger] names@[j]@ == keys[j].1,
                i < n,
                ki == keys[i as int],
                is_permutation(order@, i as nat),
                p <= order@.len(),
                forall|q: int| 0 <= q < p ==> !key_before(ki, #[trigger] keys[order@[q] as int]),
            decreases order@.len() - p,
        {
            p = p + 1;
        }
        let ghost old_order = order@;
        proof {
            if p < old_order.len() {
                assert(key_before(ki, keys[old_order[p as int] as int]));
            }
            assert forall|a: int, b: int|
                #![trigger old_order.insert(p as int, i)[a], old_order.insert(p as int, i)[b]]
                0 <= a < b < old_order.len() + 1 implies {
                    let no = old_order.insert(p as int, i);
                    &&& !key_before(keys[no[b] as int], keys[no[a] as int])
                    &&& (!key_before(keys[no[a] as int], keys[no[b] as int]) ==> no[a] < no[b])
                } by {
                let no = old_order.insert(p as int, i);
                let ka = keys[no[a] as int];
                let kb = keys[no[b] as int];
                if a < p && b < p {
                    assert(no[a] == old_order[a] && no[b] == old_order[b]);
                } else if a < p && b == p {
                    assert(no[a] == old_order[a]);
                } else if a < p && b > p {
                    assert(no[a] == old_order[a] && no[b] == old_order[b - 1]);
                } else if a == p {
                    assert(no[b] == old_order[b - 1]);
                    let kp = keys[old_order[p as int] as int];
                    key_order_facts(kb, ki, kp);
                    key_order_facts(ki, kb, kp);
                    if b - 1 > p {
                        assert(!key_before(kb, kp));
                    }
                } else {
                    assert(no[a] == old_order[a - 1] && no[b] == old_order[b - 1]);
                }
            }
        }
        order.insert(p, i);
        proof {
            assert(order@ == old_order.insert(p as int, i));
            assert forall|a: int, b: int| 0 <= a < b < order@.len() implies order@[a]
                != order@[b] by {
                if a < p && b > p {
                    assert(order@[b] == old_order[b - 1]);
                } else if a > p {
                    assert(order@[a] == old_order[a - 1] && order@[b] == old_order[b - 1]);
                }
            }
        }
        i = i + 1;
    }
    order
}


/// A path shortened for a title of at most about `max_len` bytes: kept when
/// it fits, otherwise `...` followed by its last `max_len - 3` bytes.
pub open spec fn shortened_path(path: Seq<u8>, max_len: int) -> Seq<char> {
    if path.len() <= max_len {
        decode_utf8(path)
    } else {
        "..."@ + decode_utf8(path.skip(path.len() - max_len + 3))
    }
}

/// Shortens a path for display (see `shortened_path`).  A path longer than
/// `max_len` is cut at byte `len - max_len + 3`, which must exist and fall
/// on a character boundary.
pub fn truncate_path(path: &str, max_len: usize) -> (r: String)
    requires
        path.spec_bytes().len() > max_len ==> max_len >= 3 && is_char_boundary(
            path.spec_bytes(),
            path.spec_bytes().len() - max_len + 3,
        ),
    ensures
        r@ == shortened_path(path.spec_bytes(), max_len as int),
{
    proof {
        encode_utf8_decode_utf8(path@);
        encode_utf8_valid_utf8(path@);
    }
    let len = path.as_bytes().len();
    if len <= max_len {
        return path.to_owned();
    }
    let (_, tail) = path.split_at(len - max_len + 3);
    proof {
        encode_utf8_decode_utf8(tail@);
        assert(tail.spec_bytes() =~= path.spec_bytes().skip(len - max_len + 3));
    }
    let mut r = "...".to_owned();
    r.append(tail);
    r
}


/// Moving the selection keeps it on an entry of a non-empty list.
pub proof fn selection_stays_in_list(selected: nat, len: nat)
    requires
        len > 0,
        selected < len,
    ensures
        (if selected + 1 < len - 1 {
            selected + 1 as int
        } else {
            len - 1
        }) < len as int,
        (if selected > 0 {
            selected - 1
        } else {
            0int
        }) < len as int,
{
}

/// After scrolling, the selection is one of the `visible` rows shown.
pub proof fn scroll_keeps_selection_visible(selected: nat, offset: nat, visible: nat)
    requires
        visible > 0,
    ensures
        ({
            let r = if selected < offset {
                selected
            } else if selected >= offset + visible {
                (selected - visible + 1) as nat
            } else {
                offset
            };
            r <= selected < r + visible
        }),
{
}

/// Names are ordered byte by byte: a name comes before every longer name
/// that it begins, no name comes before a name that it extends or equals,
/// and otherwise the first byte where two names differ decides.
pub proof fn bytes_order_is_lexicographic(a: Seq<u8>, b: Seq<u8>)
    ensures
        a.len() < b.len() && b.take(a.len() as int) == a ==> bytes_less(a, b),
        b.len() <= a.len() && a.take(b.len() as int) == b ==> !bytes_less(a, b),
        forall|i: int|
            0 <= i < a.len() && i < b.len() && a.take(i) == b.take(i) && a[i] != b[i] ==> (
            bytes_less(a, b) <==> a[i] < b[i]),
    decreases a.len(),
{
    if a.len() > 0 && b.len() > 0 {
        bytes_order_is_lexicographic(a.drop_first(), b.drop_first());
        if a.len() < b.len() && b.take(a.len() as int) == a {
            assert(a[0] == b.take(a.len() as int)[0]);
            assert(b.drop_first().take(a.drop_first().len() as int) =~= a.drop_first()) by {
                assert forall|k: int| 0 <= k < a.drop_first().len() implies #[trigger] b.drop_first().take(
                    a.drop_first().len() as int,
                )[k] == a.drop_first()[k] by {
                    assert(b.take(a.len() as int)[k + 1] == a[k + 1]);
                }
            }
        }
        if b.len() <= a.len() && a.take(b.len() as int) == b {
            assert(b[0] == a.take(b.len() as int)[0]);
            assert(a.drop_first().take(b.drop_first().len() as int) =~= b.drop_first()) by {
                assert forall|k: int| 0 <= k < b.drop_first().len() implies #[trigger] a.drop_first().take(
                    b.drop_first().len() as int,
                )[k] == b.drop_first()[k] by {
                    assert(a.take(b.len() as int)[k + 1] == b[k + 1]);
                }
            }
        }
        assert forall|i: int|
            0 <= i < a.len() && i < b.len() && a.take(i) == b.take(i) && a[i] != b[i] implies (
            bytes_less(a, b) <==> a[i] < b[i]) by {
            if i > 0 {
                assert(a[0] == a.take(i)[0] && b[0] == b.take(i)[0]);
                assert(a.drop_first().take(i - 1) =~= b.drop_first().take(i - 1)) by {
                    assert forall|k: int| 0 <= k < i - 1 implies #[trigger] a.drop_first().take(
                        i - 1,
                    )[k] == b.drop_first().take(i - 1)[k] by {
                        assert(a.take(i)[k + 1] == b.take(i)[k + 1]);
                    }
                }
                assert(a.drop_first()[i - 1] == a[i] && b.drop_first()[i - 1] == b[i]);
            }
        }
    } else if a.len() == 0 {
        assert(a.take(0) =~= a);
    } else {
        assert(b.len() == 0);
    }
}

/// The listing puts directories before files, and within each kind a name
/// before every longer name that it begins.
pub proof fn directories_then_names(a: (bool, Seq<u8>), b: (bool, Seq<u8>), c: Seq<u8>)
    ensures
        a.0 && !b.0 ==> key_before(a, b) && !key_before(b, a),
        c.len() > 0 ==> key_before((a.0, a.1), (a.0, a.1 + c)) && !key_before(
            (a.0, a.1 + c),
            (a.0, a.1),
        ),
{
    let longer = a.1 + c;
    assert(longer.take(a.1.len() as int) =~= a.1);
    bytes_order_is_lexicographic(a.1, longer);
    bytes_order_is_lexicographic(longer, a.1);
}

} // verus!
