//! An identity that stays with this machine, and a name for people to read.
//!
//! A UUID v4 is made on the first scan and kept in a file in the configuration directory of the
//! system. A file that holds anything else is replaced; deleting it gives a new identity.

use crate::browser_local_storage::{is_hex_or_hyphen, is_uuid};
use crate::platform::{below, join_path};
use crate::text::{
    ascii_lower, chars_of, law_trimmed_twice, slice_of, small, small_char, str_opt, text_opt, trim,
    trimmed,
};
use vstd::prelude::*;

verus! {

pub const APP_NAME: &'static str = "howmuchiai";

pub const FILE_NAME: &'static str = "device_id";

/// Where the device id is kept, below the configuration directory of the system.
pub fn device_id_path(config_dir: &str) -> (r: String)
    ensures
        r@ == below(below(config_dir@, APP_NAME@), FILE_NAME@),
{
    let dir = join_path(config_dir, APP_NAME);
    join_path(dir.as_str(), FILE_NAME)
}

/// The version of the UUID that a text writes, as `uuid` reads it; nothing where it is no UUID.
pub uninterp spec fn uuid_version(text: Seq<char>) -> Option<usize>;

/// Calls `uuid::Uuid::parse_str` and `get_version_num`.
///
/// Claims that whether the text is a UUID, and its version, depend on the text alone.
#[verifier::external_body]
fn read_uuid_version(text: &str) -> (r: Option<usize>)
    ensures
        r == uuid_version(text@),
{
    uuid::Uuid::parse_str(text).ok().map(|u| u.get_version_num())
}

/// Calls `uuid::Uuid::new_v4` and writes the result as text.
///
/// Claims of every outcome that it reads back as a UUID of version 4, and that it is written in the
/// usual form of 36 hexadecimal digits and hyphens. Which one it is depends on chance.
#[verifier::external_body]
fn random_uuid() -> (r: String)
    ensures
        uuid_version(r@) == Some(4usize),
        is_uuid(r@),
{
    uuid::Uuid::new_v4().to_string()
}

/// Whether a text writes a UUID of version 4.
pub open spec fn is_v4(text: Seq<char>) -> bool {
    uuid_version(text) == Some(4usize)
}

/// Whether a version is that of a device id.
pub fn is_device_version(version: Option<usize>) -> (r: bool)
    ensures
        r == (version == Some(4usize)),
{
    match version {
        Some(n) => n == 4,
        None => false,
    }
}

/// Whether a text writes a UUID of version 4: a file that was damaged is not to be used again.
pub fn is_valid_uuid_v4(s: &str) -> (r: bool)
    ensures
        r == is_v4(s@),
{
    is_device_version(read_uuid_version(s))
}

/// A device id, and whether it is new and has to be kept.
pub struct DeviceId {
    pub id: String,
    pub fresh: bool,
}

impl DeviceId {
    /// What has to be written to the file of the id: the id itself, where it is new.
    pub fn to_keep(&self) -> (r: Option<&str>)
        ensures
            str_opt(r) == kept_text(*self),
    {
        if self.fresh {
            Some(self.id.as_str())
        } else {
            None
        }
    }
}

/// What has to be written to the file of an id: the id itself, where it is new.
pub open spec fn kept_text(device: DeviceId) -> Option<Seq<char>> {
    if device.fresh {
        Some(device.id@)
    } else {
        None
    }
}

/// Whether a device id is what comes of what its file holds, where that is there: the id in it, or
/// a new one. Either way it is a UUID of version 4 without white space around it.
pub open spec fn is_loaded(existing: Option<Seq<char>>, device: DeviceId) -> bool {
    &&& is_v4(device.id@)
    &&& trimmed(device.id@) == device.id@
    &&& match existing {
        Some(text) if is_v4(trimmed(text)) => device.id@ == trimmed(text) && !device.fresh,
        _ => device.fresh,
    }
}

/// Takes the device id out of what its file holds, where that is there, or makes a new one.
pub fn load_or_create(existing: Option<&str>) -> (r: DeviceId)
    ensures
        is_loaded(str_opt(existing), r),
{
    if let Some(text) = existing {
        let kept = trim(text);
        if is_valid_uuid_v4(kept.as_str()) {
            proof {
                law_trimmed_twice(text@);
            }
            return DeviceId { id: kept, fresh: false };
        }
    }
    let id = random_uuid();
    assert(is_hex_or_hyphen(id@[0]) && is_hex_or_hyphen(id@[35]));
    DeviceId { id, fresh: true }
}

/// The id in a file is used if it is a UUID of version 4, whatever white space stands around it, and is
/// not written again. Anything else in the file, or no file, gives a new id that is to be written.
pub proof fn law_kept_id_is_used(text: Seq<char>, device: DeviceId)
    ensures
        is_loaded(Some(text), device) && uuid_version(trimmed(text)) == Some(4usize) ==> device.id@
            == trimmed(text) && kept_text(device) is None,
        is_loaded(Some(text), device) && uuid_version(trimmed(text)) != Some(4usize) ==> kept_text(
            device,
        ) == Some(device.id@),
        is_loaded(None, device) ==> kept_text(device) == Some(device.id@),
        is_loaded(Some(text), device) || is_loaded(None, device) ==> uuid_version(device.id@) == Some(
            4usize,
        ),
{
}

/// What the file of an id holds after a load: what was to be kept, if it could be written, else
/// what it held before.
pub open spec fn file_after(
    existing: Option<Seq<char>>,
    device: DeviceId,
    written: bool,
) -> Option<Seq<char>> {
    match kept_text(device) {
        Some(text) if written => Some(text),
        _ => existing,
    }
}

/// A machine keeps its id: once it stands in the file, be it that it stood there or that it was new
/// and could be written, the next load gives the same id and leaves the file as it is.
pub proof fn law_id_is_kept(
    existing: Option<Seq<char>>,
    first: DeviceId,
    written: bool,
    second: DeviceId,
)
    requires
        is_loaded(existing, first),
        first.fresh ==> written,
        is_loaded(file_after(existing, first, written), second),
    ensures
        second.id@ == first.id@,
        kept_text(second) is None,
{
}

/// Whether a host name ends with a suffix, in capitals or small letters.
pub open spec fn ends_in(host: Seq<char>, suffix: Seq<char>) -> bool {
    host.len() >= suffix.len() && ascii_lower(host.skip(host.len() - suffix.len())) == suffix
}

/// A host name without the suffix of a local network. The first that fits is taken off, once.
pub open spec fn without_suffix(host: Seq<char>) -> Seq<char> {
    if ends_in(host, ".localdomain"@) {
        host.take(host.len() - ".localdomain"@.len())
    } else if ends_in(host, ".local"@) {
        host.take(host.len() - ".local"@.len())
    } else if ends_in(host, ".lan"@) {
        host.take(host.len() - ".lan"@.len())
    } else if ends_in(host, ".home"@) {
        host.take(host.len() - ".home"@.len())
    } else {
        host
    }
}

/// A host name keeps its start and loses no more than a suffix.
pub proof fn law_suffix_only(host: Seq<char>)
    ensures
        without_suffix(host).is_prefix_of(host),
        without_suffix(host).len() + 12 >= host.len(),
{
    reveal_strlit(".localdomain");
    reveal_strlit(".local");
    reveal_strlit(".lan");
    reveal_strlit(".home");
}

/// The name of a host on a local network loses its suffix, in capitals or small letters, and any other
/// name stays as it is.
pub proof fn law_local_names_lose_their_suffix(host: Seq<char>)
    ensures
        ends_in(host, ".localdomain"@) ==> without_suffix(host) == host.take(host.len() - 12),
        ends_in(host, ".local"@) ==> without_suffix(host) == host.take(host.len() - 6),
        ends_in(host, ".lan"@) ==> without_suffix(host) == host.take(host.len() - 4),
        ends_in(host, ".home"@) ==> without_suffix(host) == host.take(host.len() - 5),
        !ends_in(host, ".localdomain"@) && !ends_in(host, ".local"@) && !ends_in(host, ".lan"@)
            && !ends_in(host, ".home"@) ==> without_suffix(host) == host,
{
    reveal_strlit(".localdomain");
    reveal_strlit(".local");
    reveal_strlit(".lan");
    reveal_strlit(".home");
    let n = host.len() as int;
    if ends_in(host, ".localdomain"@) {
        let tail = ascii_lower(host.skip(n - 12));
        assert(tail[11] == small(host[n - 1]) && tail[11] == 'n');
        assert(tail[10] == small(host[n - 2]) && tail[10] == 'i');
    }
    if ends_in(host, ".local"@) {
        let tail = ascii_lower(host.skip(n - 6));
        assert(tail[5] == small(host[n - 1]) && tail[5] == 'l');
    }
    if ends_in(host, ".lan"@) {
        let tail = ascii_lower(host.skip(n - 4));
        assert(tail[3] == small(host[n - 1]) && tail[3] == 'n');
        assert(tail[2] == small(host[n - 2]) && tail[2] == 'a');
    }
    if ends_in(host, ".home"@) {
        let tail = ascii_lower(host.skip(n - 5));
        assert(tail[4] == small(host[n - 1]) && tail[4] == 'e');
    }
}

/// A label is what is left of a host's name without white space around it and without its suffix; a
/// host without a name, or with nothing left of it, has none.
pub proof fn law_label_is_what_is_left(name: Seq<char>)
    ensures
        label_of(None) is None,
        without_suffix(trimmed(name)).len() == 0 ==> label_of(Some(name)) is None,
        without_suffix(trimmed(name)).len() > 0 ==> label_of(Some(name)) == Some(
            without_suffix(trimmed(name)),
        ),
{
}

fn has_suffix(host: &Vec<char>, suffix: &str) -> (r: Option<usize>)
    ensures
        match r {
            Some(n) => ends_in(host@, suffix@) && n == host@.len() - suffix@.len(),
            None => !ends_in(host@, suffix@),
        },
{
    let tail = chars_of(suffix);
    if host.len() < tail.len() {
        return None;
    }
    let start: usize = host.len() - tail.len();
    let n: usize = host.len();
    let ghost lowered = ascii_lower(host@.skip(start as int));
    let mut i: usize = 0;
    while i < tail.len()
        invariant
            i <= tail@.len(),
            n == host@.len(),
            start + tail@.len() == host@.len(),
            tail@ == suffix@,
            lowered == ascii_lower(host@.skip(start as int)),
            forall|k: int| 0 <= k < i ==> #[trigger] lowered[k] == suffix@[k],
        decreases tail@.len() - i,
    {
        assert(lowered[i as int] == small(host@[start + i]));
        if small_char(host[start + i]) != tail[i] {
            return None;
        }
        i += 1;
    }
    assert(lowered =~= suffix@);
    Some(start)
}

/// A host name without the suffix of a local network, which tells people nothing.
pub fn strip_mdns_suffix(host: &str) -> (r: String)
    ensures
        r@ == without_suffix(host@),
{
    let chars = chars_of(host);
    if let Some(n) = has_suffix(&chars, ".localdomain") {
        return cut(&chars, n);
    }
    if let Some(n) = has_suffix(&chars, ".local") {
        return cut(&chars, n);
    }
    if let Some(n) = has_suffix(&chars, ".lan") {
        return cut(&chars, n);
    }
    if let Some(n) = has_suffix(&chars, ".home") {
        return cut(&chars, n);
    }
    host.to_string()
}

fn cut(chars: &Vec<char>, n: usize) -> (r: String)
    requires
        n <= chars@.len(),
    ensures
        r@ == chars@.take(n as int),
{
    let r = slice_of(chars.as_slice(), 0, n);
    assert(r@ =~= chars@.take(n as int));
    r
}

/// The label of a host: its name without white space around it and without the suffix of a local
/// network; none where nothing is left.
pub open spec fn label_of(raw: Option<Seq<char>>) -> Option<Seq<char>> {
    match raw {
        Some(name) => if without_suffix(trimmed(name)).len() > 0 {
            Some(without_suffix(trimmed(name)))
        } else {
            None
        },
        None => None,
    }
}

/// The label of this machine, from what the system calls its host.
pub fn hostname_label(raw: Option<&str>) -> (r: Option<String>)
    ensures
        text_opt(r) == label_of(str_opt(raw)),
{
    match raw {
        Some(name) => {
            let host = trim(name);
            let label = strip_mdns_suffix(host.as_str());
            if label.as_str().is_empty() {
                None
            } else {
                Some(label)
            }
        },
        None => None,
    }
}

} // verus!
