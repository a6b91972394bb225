//! Apple's `container` command-line tool: the commands the tray runs and how
//! it reads their JSON answers. The tool's JSON field names are not fixed,
//! so each field is looked up under a few candidate keys.

use vstd::prelude::*;
use crate::cli::{concat, last_error, last_error_text, texts, unit_outcome, unit_result, CliOutput};
use crate::docker::{
    host_visible, is_host_visible, mount_views, ContainerGroup, ContainerInfo, CreateContainerInput,
    ImageInfo, MountInfo, MountView, NetworkInfo, PortMapping, VolumeInfo, VolumeMapping,
    standalone_name,
};
use crate::json::{
    key_views, pick, pick_i64, pick_int, pick_str, pick_text, pick_value, JsonValue, get,
    pick_in, value_text,
};
use crate::text::{
    chars_of, contains, contains_chars, lines, lowercase, split_lines, string_of, strip_all_prefix,
    take_chars, take_prefix, to_lowercase, trim, trim_chars, trim_start_matches, views,
};

verus! {

/// What a listing command printed, framed for the JSON parser: nothing, one
/// JSON array, or JSON values one per non-blank line.
#[derive(Debug, PartialEq, Eq)]
pub enum Listing {
    Empty,
    Array(String),
    Lines(Vec<String>),
}

/// The lines of `t` that hold more than whitespace.
pub open spec fn nonblank_lines(t: Seq<char>) -> Seq<Seq<char>> {
    lines(t).filter(|l: Seq<char>| trim(l).len() > 0)
}

/// `l` frames the trimmed output `t`.
pub open spec fn frames(t: Seq<char>, l: Listing) -> bool {
    if t.len() == 0 {
        l is Empty
    } else if t[0] == '[' {
        l matches Listing::Array(a) && a@ == t
    } else {
        l matches Listing::Lines(ls) && texts(ls@) == nonblank_lines(t)
    }
}

/// Frames a listing command's output: trimmed, an array when it starts with
/// `'['`, otherwise one JSON value per non-blank line.
pub fn frame_listing(stdout: &str) -> (r: Listing)
    ensures
        frames(trim(stdout@), r),
{
    let cs = chars_of(stdout);
    let t = trim_chars(cs.as_slice());
    if t.len() == 0 {
        return Listing::Empty;
    }
    if t[0] == '[' {
        return Listing::Array(string_of(t.as_slice()));
    }
    let ls = split_lines(t.as_slice());
    let ghost all = views(ls@);
    let ghost keep = |l: Seq<char>| trim(l).len() > 0;
    let mut out: Vec<String> = Vec::new();
    let mut i: usize = 0;
    assert(all.take(0).filter(keep) =~= Seq::<Seq<char>>::empty());
    assert(texts(out@) =~= Seq::<Seq<char>>::empty());
    while i < ls.len()
        invariant
            i <= ls@.len(),
            all == views(ls@),
            all == lines(t@),
            keep == (|l: Seq<char>| trim(l).len() > 0),
            texts(out@) == all.take(i as int).filter(keep),
        decreases ls@.len() - i,
    {
        assert(all.take(i + 1) =~= all.take(i as int).push(all[i as int]));
        proof {
            all.take(i as int).lemma_filter_push(all[i as int], keep);
        }
        let trimmed = trim_chars(ls[i].as_slice());
        let ghost before = out@;
        if trimmed.len() > 0 {
            let line = string_of(ls[i].as_slice());
            out.push(line);
            assert(texts(out@) =~= texts(before).push(line@));
        }
        i = i + 1;
    }
    assert(all.take(i as int) =~= all);
    Listing::Lines(out)
}

/// The framed output of a listing command, or why there is none: its launch
/// error, or the last line of its error output.
pub fn listing(out: Result<CliOutput, String>) -> (r: Result<Listing, String>)
    ensures
        match out {
            Err(e) => r matches Err(f) && f@ == e@,
            Ok(o) => if o.success {
                r matches Ok(l) && frames(trim(o.stdout@), l)
            } else {
                r matches Err(f) && f@ == last_error_text(o.stderr@)
            },
        },
{
    match out {
        Err(e) => Err(e),
        Ok(o) => if o.success {
            Ok(frame_listing(o.stdout.as_str()))
        } else {
            Err(last_error(o.stderr.as_str()))
        },
    }
}

/// An error message that says a feature is missing from this build of the
/// tool, after which an empty list is shown instead.
pub open spec fn missing_feature(msg: Seq<char>) -> bool {
    let low = lowercase(msg);
    contains(low, "unknown command"@) || contains(low, "no such"@)
}

/// Like `listing`, but a failure that says the feature is missing gives an
/// empty listing.
pub fn tolerant_listing(out: Result<CliOutput, String>) -> (r: Result<Listing, String>)
    ensures
        match out {
            Err(e) => r matches Err(f) && f@ == e@,
            Ok(o) => if o.success {
                r matches Ok(l) && frames(trim(o.stdout@), l)
            } else if missing_feature(last_error_text(o.stderr@)) {
                r matches Ok(l) && l is Empty
            } else {
                r matches Err(f) && f@ == last_error_text(o.stderr@)
            },
        },
{
    match out {
        Err(e) => Err(e),
        Ok(o) => if o.success {
            Ok(frame_listing(o.stdout.as_str()))
        } else {
            let msg = last_error(o.stderr.as_str());
            let low = to_lowercase(msg.as_str());
            let low_chars = chars_of(low.as_str());
            let unknown = chars_of("unknown command");
            let no_such = chars_of("no such");
            if contains_chars(low_chars.as_slice(), unknown.as_slice()) || contains_chars(
                low_chars.as_slice(),
                no_such.as_slice(),
            ) {
                Ok(Listing::Empty)
            } else {
                Err(msg)
            }
        },
    }
}

/// Why a framed listing did not parse: the parser's message, and whether it
/// was one of the per-line values that failed.
#[derive(Debug, PartialEq, Eq)]
pub struct ListingError {
    pub per_line: bool,
    pub message: String,
}

/// The message a listing that did not parse is reported with.
pub open spec fn listing_error_text(what: Seq<char>, e: ListingError) -> Seq<char> {
    "Invalid "@ + what + (if e.per_line {
        " JSON line: "@
    } else {
        " JSON: "@
    }) + e.message@
}

/// Reports a listing that did not parse.
pub fn listing_error(what: &str, e: ListingError) -> (r: String)
    ensures
        r@ == listing_error_text(what@, e),
{
    let mut r = concat("Invalid ", what);
    if e.per_line {
        r.append(" JSON line: ");
    } else {
        r.append(" JSON: ");
    }
    r.append(e.message.as_str());
    r
}

/// The keys a container's ID is found under.
pub open spec fn id_keys() -> Seq<Seq<char>> {
    seq!["id"@, "name"@, "containerID"@, "container_id"@]
}

/// The keys a container's image is found under.
pub open spec fn image_keys() -> Seq<Seq<char>> {
    seq!["image"@, "imageRef"@, "image_ref"@]
}

/// The keys a container's state is found under, in order.
pub open spec fn state_keys() -> Seq<Seq<char>> {
    seq!["state"@, "status"@]
}

/// The keys a container's status is found under, in order.
pub open spec fn status_keys() -> Seq<Seq<char>> {
    seq!["status"@, "state"@]
}

/// The keys a creation time is found under.
pub open spec fn created_keys() -> Seq<Seq<char>> {
    seq!["created"@, "createdAt"@, "created_at"@, "creation"@]
}

/// `c` is the tray's record of a container that the tool listed as `obj`:
/// the ID cut to twelve characters, the full ID as its one name, no ports
/// and no labels.
pub open spec fn container_from_json(obj: JsonValue, c: ContainerInfo) -> bool {
    let id = pick_text(obj, id_keys());
    &&& c.id@ == take_chars(id, 12)
    &&& texts(c.names@) == seq![id]
    &&& c.image@ == pick_text(obj, image_keys())
    &&& c.state@ == pick_text(obj, state_keys())
    &&& c.status@ == pick_text(obj, status_keys())
    &&& c.ports@.len() == 0
    &&& c.created == pick_int(obj, created_keys())
    &&& c.labels@.len() == 0
}

/// The tray's record of one container of the tool's list.
pub fn container_info(obj: &JsonValue) -> (r: ContainerInfo)
    ensures
        container_from_json(*obj, r),
{
    let keys = ["id", "name", "containerID", "container_id"];
    assert(key_views(keys@) =~= id_keys());
    let id = pick_str(obj, &keys);
    let keys = ["image", "imageRef", "image_ref"];
    assert(key_views(keys@) =~= image_keys());
    let image = pick_str(obj, &keys);
    let keys = ["state", "status"];
    assert(key_views(keys@) =~= state_keys());
    let state = pick_str(obj, &keys);
    let keys = ["status", "state"];
    assert(key_views(keys@) =~= status_keys());
    let status = pick_str(obj, &keys);
    let keys = ["created", "createdAt", "created_at", "creation"];
    assert(key_views(keys@) =~= created_keys());
    let created = pick_i64(obj, &keys);
    let id_chars = chars_of(id.as_str());
    let short = take_prefix(id_chars.as_slice(), 12);
    let names = vec![id];
    assert(texts(names@) =~= seq![names@[0]@]);
    ContainerInfo {
        id: string_of(short.as_slice()),
        names,
        image,
        state,
        status,
        ports: Vec::new(),
        created,
        labels: Vec::new(),
    }
}

/// The arguments of `container` that list all containers as JSON.
pub fn list_containers_args() -> (r: Vec<String>)
    ensures
        texts(r@) == seq!["list"@, "--all"@, "--format"@, "json"@],
{
    let r = vec![
        String::from_str("list"),
        String::from_str("--all"),
        String::from_str("--format"),
        String::from_str("json"),
    ];
    assert(texts(r@) =~= seq!["list"@, "--all"@, "--format"@, "json"@]);
    r
}

/// The container list of the tray from the tool's parsed list: the tool
/// knows no compose projects, so all containers form one standalone group,
/// and there is no group when there are no containers.
pub fn list_containers(parsed: Result<Vec<JsonValue>, ListingError>) -> (r: Result<Vec<ContainerGroup>, String>)
    ensures
        match parsed {
            Err(e) => r matches Err(f) && f@ == listing_error_text("list"@, e),
            Ok(items) => r matches Ok(gs) && if items@.len() == 0 {
                gs@.len() == 0
            } else {
                &&& gs@.len() == 1
                &&& gs@[0].name@ == standalone_name()
                &&& gs@[0].containers@.len() == items@.len()
                &&& forall|i: int| 0 <= i < items@.len() ==> container_from_json(#[trigger] items@[i], gs@[0].containers@[i])
            },
        },
{
    match parsed {
        Err(e) => Err(listing_error("list", e)),
        Ok(items) => {
            let mut cs: Vec<ContainerInfo> = Vec::new();
            let mut i: usize = 0;
            while i < items.len()
                invariant
                    i <= items@.len(),
                    cs@.len() == i,
                    forall|k: int| 0 <= k < i ==> container_from_json(#[trigger] items@[k], cs@[k]),
                decreases items@.len() - i,
            {
                cs.push(container_info(&items[i]));
                i = i + 1;
            }
            if cs.len() == 0 {
                Ok(Vec::new())
            } else {
                Ok(vec![ContainerGroup { name: String::from_str("Standalone"), containers: cs }])
            }
        },
    }
}

/// The keys an image's ID is found under.
pub open spec fn digest_keys() -> Seq<Seq<char>> {
    seq!["id"@, "digest"@, "imageID"@, "image_id"@]
}

/// The keys an image's tags are found under.
pub open spec fn tag_keys() -> Seq<Seq<char>> {
    seq!["name"@, "reference"@, "repoTags"@, "repo_tags"@]
}

/// The keys an image's name is found under when it has no tags.
pub open spec fn name_keys() -> Seq<Seq<char>> {
    seq!["name"@, "reference"@]
}

/// The keys an image's size is found under.
pub open spec fn size_keys() -> Seq<Seq<char>> {
    seq!["size"@, "fullSize"@, "full_size"@]
}

/// The string of a JSON string value.
pub open spec fn string_item(v: JsonValue) -> Option<Seq<char>> {
    match v {
        JsonValue::Str(s) => Some(s@),
        _ => None,
    }
}

/// The tags a tag value holds: a string, or the strings of an array.
pub open spec fn tag_texts(v: Option<JsonValue>) -> Seq<Seq<char>> {
    match v {
        Some(JsonValue::Str(s)) => seq![s@],
        Some(JsonValue::Array { items, .. }) => items@.filter_map(|x: JsonValue| string_item(x)),
        _ => Seq::empty(),
    }
}

/// The tags of an image object: its tag value, or failing that its name,
/// without empty entries.
pub open spec fn image_tags(obj: JsonValue) -> Seq<Seq<char>> {
    let t = tag_texts(pick_value(obj, tag_keys()));
    let all = if t.len() == 0 {
        seq![pick_text(obj, name_keys())]
    } else {
        t
    };
    all.filter(|s: Seq<char>| s.len() > 0)
}

/// `i` is the tray's record of an image the tool listed as `obj`: the ID
/// without "sha256:" prefixes, cut to twelve characters.
pub open spec fn image_from_json(obj: JsonValue, i: ImageInfo) -> bool {
    &&& i.id@ == take_chars(trim_start_matches(pick_text(obj, digest_keys()), "sha256:"@), 12)
    &&& texts(i.repo_tags@) == image_tags(obj)
    &&& i.size == pick_int(obj, size_keys())
    &&& i.created == pick_int(obj, created_keys())
}

/// The tags a tag value holds.
pub fn tags_of(v: Option<&JsonValue>) -> (r: Vec<String>)
    ensures
        texts(r@) == tag_texts(match v {
            Some(x) => Some(*x),
            None => None,
        }),
{
    match v {
        Some(JsonValue::Str(s)) => {
            let r = vec![s.clone()];
            assert(texts(r@) =~= seq![s@]);
            r
        },
        Some(JsonValue::Array { items, .. }) => {
            let ghost f = |x: JsonValue| string_item(x);
            let mut r: Vec<String> = Vec::new();
            let mut i: usize = 0;
            assert(items@.take(0).filter_map(f) =~= Seq::<Seq<char>>::empty());
            assert(texts(r@) =~= Seq::<Seq<char>>::empty());
            while i < items.len()
                invariant
                    i <= items@.len(),
                    f == (|x: JsonValue| string_item(x)),
                    texts(r@) == items@.take(i as int).filter_map(f),
                decreases items@.len() - i,
            {
                proof {
                    items@.lemma_filter_map_take_succ(f, i as int);
                }
                let ghost before = r@;
                match &items[i] {
                    JsonValue::Str(s) => {
                        let c = s.clone();
                        r.push(c);
                        assert(texts(r@) =~= texts(before).push(c@));
                    },
                    _ => {},
                }
                assert(texts(r@) =~= items@.take(i + 1).filter_map(f));
                i = i + 1;
            }
            assert(items@.take(i as int) =~= items@);
            r
        },
        _ => {
            let r: Vec<String> = Vec::new();
            assert(texts(r@) =~= Seq::<Seq<char>>::empty());
            r
        },
    }
}

/// The tray's record of one image of the tool's list.
pub fn image_info(obj: &JsonValue) -> (r: ImageInfo)
    ensures
        image_from_json(*obj, r),
{
    let keys = ["id", "digest", "imageID", "image_id"];
    assert(key_views(keys@) =~= digest_keys());
    let id = pick_str(obj, &keys);
    let id_chars = chars_of(id.as_str());
    let prefix = chars_of("sha256:");
    let stripped = strip_all_prefix(id_chars.as_slice(), prefix.as_slice());
    let short = take_prefix(stripped.as_slice(), 12);
    let keys = ["name", "reference", "repoTags", "repo_tags"];
    assert(key_views(keys@) =~= tag_keys());
    let mut tags = tags_of(pick(obj, &keys));
    if tags.len() == 0 {
        let keys = ["name", "reference"];
        assert(key_views(keys@) =~= name_keys());
        tags.push(pick_str(obj, &keys));
        assert(texts(tags@) =~= seq![pick_text(*obj, name_keys())]);
    }
    let ghost all = texts(tags@);
    let ghost keep = |s: Seq<char>| s.len() > 0;
    let mut kept: Vec<String> = Vec::new();
    let mut i: usize = 0;
    assert(all.take(0).filter(keep) =~= Seq::<Seq<char>>::empty());
    assert(texts(kept@) =~= Seq::<Seq<char>>::empty());
    while i < tags.len()
        invariant
            i <= tags@.len(),
            all == texts(tags@),
            keep == (|s: Seq<char>| s.len() > 0),
            texts(kept@) == all.take(i as int).filter(keep),
        decreases tags@.len() - i,
    {
        assert(all.take(i + 1) =~= all.take(i as int).push(all[i as int]));
        proof {
            all.take(i as int).lemma_filter_push(all[i as int], keep);
        }
        let ghost before = kept@;
        if !tags[i].as_str().is_empty() {
            let t = tags[i].clone();
            kept.push(t);
            assert(texts(kept@) =~= texts(before).push(t@));
        }
        i = i + 1;
    }
    assert(all.take(i as int) =~= all);
    let keys = ["size", "fullSize", "full_size"];
    assert(key_views(keys@) =~= size_keys());
    let size = pick_i64(obj, &keys);
    let keys = ["created", "createdAt", "created_at", "creation"];
    assert(key_views(keys@) =~= created_keys());
    let created = pick_i64(obj, &keys);
    ImageInfo { id: string_of(short.as_slice()), repo_tags: kept, size, created }
}


/// The arguments of `container` that list images as JSON.
pub fn list_images_args() -> (r: Vec<String>)
    ensures
        texts(r@) == seq!["image"@, "list"@, "--format"@, "json"@],
{
    let r = vec![
        String::from_str("image"),
        String::from_str("list"),
        String::from_str("--format"),
        String::from_str("json"),
    ];
    assert(texts(r@) =~= seq!["image"@, "list"@, "--format"@, "json"@]);
    r
}

/// The image list of the tray from the tool's parsed image list.
pub fn list_images(parsed: Result<Vec<JsonValue>, ListingError>) -> (r: Result<Vec<ImageInfo>, String>)
    ensures
        match parsed {
            Err(e) => r matches Err(f) && f@ == listing_error_text("image list"@, e),
            Ok(items) => r matches Ok(is) && is@.len() == items@.len() && forall|i: int|
                0 <= i < items@.len() ==> image_from_json(#[trigger] items@[i], is@[i]),
        },
{
    match parsed {
        Err(e) => Err(listing_error("image list", e)),
        Ok(items) => {
            let mut out: Vec<ImageInfo> = Vec::new();
            let mut i: usize = 0;
            while i < items.len()
                invariant
                    i <= items@.len(),
                    out@.len() == i,
                    forall|k: int| 0 <= k < i ==> image_from_json(#[trigger] items@[k], out@[k]),
                decreases items@.len() - i,
            {
                out.push(image_info(&items[i]));
                i = i + 1;
            }
            Ok(out)
        },
    }
}

/// The keys a volume's name is found under.
pub open spec fn volume_name_keys() -> Seq<Seq<char>> {
    seq!["name"@, "label"@]
}

/// The keys a volume's driver is found under.
pub open spec fn volume_driver_keys() -> Seq<Seq<char>> {
    seq!["driver"@, "type"@]
}

/// The keys a volume's mount point is found under.
pub open spec fn mountpoint_keys() -> Seq<Seq<char>> {
    seq!["mountpoint"@, "mountPoint"@, "mount_point"@, "path"@]
}

/// `v` is the tray's record of a volume the tool listed as `obj`.
pub open spec fn volume_from_json(obj: JsonValue, v: VolumeInfo) -> bool {
    &&& v.name@ == pick_text(obj, volume_name_keys())
    &&& v.driver@ == lowercase(pick_text(obj, volume_driver_keys()))
    &&& v.mountpoint@ == pick_text(obj, mountpoint_keys())
    &&& v.labels@.len() == 0
}

/// The value under `key` in an object, when it holds one (not null).
pub open spec fn present(obj: JsonValue, key: Seq<char>) -> Option<JsonValue> {
    match get(obj, key) {
        Some(x) => if x is Null {
            None
        } else {
            Some(x)
        },
        None => None,
    }
}

/// Of two candidate keys, the value under the first that holds one is picked.
proof fn lemma_pick_of_two(obj: JsonValue, k0: Seq<char>, k1: Seq<char>)
    ensures
        pick_value(obj, seq![k0, k1]) == match present(obj, k0) {
            Some(x) => Some(x),
            None => present(obj, k1),
        },
{
    reveal_with_fuel(pick_in, 3);
    let keys = seq![k0, k1];
    assert(keys.drop_first() =~= seq![k1]);
    assert(seq![k1].drop_first() =~= Seq::<Seq<char>>::empty());
}

/// The first of several candidate keys that holds a value gives it.
proof fn lemma_pick_first(obj: JsonValue, keys: Seq<Seq<char>>)
    requires
        keys.len() > 0,
        present(obj, keys[0]) is Some,
    ensures
        pick_value(obj, keys) == present(obj, keys[0]),
{
}

/// How a volume of the tool's list is read: its name is the value under
/// `name`, or, when that holds none, under `label` (empty when neither does);
/// its driver is the lower-cased value under `driver`, else under `type`;
/// its mount point is the value under `mountpoint` when that holds one.
pub proof fn lemma_volume_fields(obj: JsonValue, v: VolumeInfo)
    requires
        volume_from_json(obj, v),
    ensures
        match present(obj, "name"@) {
            Some(x) => v.name@ == value_text(x),
            None => match present(obj, "label"@) {
                Some(y) => v.name@ == value_text(y),
                None => v.name@.len() == 0,
            },
        },
        match present(obj, "driver"@) {
            Some(x) => v.driver@ == lowercase(value_text(x)),
            None => match present(obj, "type"@) {
                Some(y) => v.driver@ == lowercase(value_text(y)),
                None => v.driver@ == lowercase(Seq::empty()),
            },
        },
        present(obj, "mountpoint"@) matches Some(x) ==> v.mountpoint@ == value_text(x),
        v.labels@.len() == 0,
{
    lemma_pick_of_two(obj, "name"@, "label"@);
    lemma_pick_of_two(obj, "driver"@, "type"@);
    if present(obj, "mountpoint"@) is Some {
        lemma_pick_first(obj, mountpoint_keys());
    }
}

/// The arguments of `container` that list volumes as JSON.
pub fn list_volumes_args() -> (r: Vec<String>)
    ensures
        texts(r@) == seq!["volume"@, "list"@, "--format"@, "json"@],
{
    let r = vec![
        String::from_str("volume"),
        String::from_str("list"),
        String::from_str("--format"),
        String::from_str("json"),
    ];
    assert(texts(r@) =~= seq!["volume"@, "list"@, "--format"@, "json"@]);
    r
}

/// The volume list of the tray from the tool's parsed volume list.
pub fn list_volumes(parsed: Result<Vec<JsonValue>, ListingError>) -> (r: Result<Vec<VolumeInfo>, String>)
    ensures
        match parsed {
            Err(e) => r matches Err(f) && f@ == listing_error_text("volume list"@, e),
            Ok(items) => r matches Ok(vs) && vs@.len() == items@.len() && forall|i: int|
                0 <= i < items@.len() ==> volume_from_json(#[trigger] items@[i], vs@[i]),
        },
{
    match parsed {
        Err(e) => Err(listing_error("volume list", e)),
        Ok(items) => {
            let mut out: Vec<VolumeInfo> = Vec::new();
            let mut i: usize = 0;
            while i < items.len()
                invariant
                    i <= items@.len(),
                    out@.len() == i,
                    forall|k: int| 0 <= k < i ==> volume_from_json(#[trigger] items@[k], out@[k]),
                decreases items@.len() - i,
            {
                let obj = &items[i];
                let keys = ["name", "label"];
                assert(key_views(keys@) =~= volume_name_keys());
                let name = pick_str(obj, &keys);
                let keys = ["driver", "type"];
                assert(key_views(keys@) =~= volume_driver_keys());
                let driver = to_lowercase(pick_str(obj, &keys).as_str());
                let keys = ["mountpoint", "mountPoint", "mount_point", "path"];
                assert(key_views(keys@) =~= mountpoint_keys());
                let mountpoint = pick_str(obj, &keys);
                out.push(VolumeInfo { name, driver, mountpoint, labels: Vec::new() });
                i = i + 1;
            }
            Ok(out)
        },
    }
}

/// The keys a network's ID is found under.
pub open spec fn network_id_keys() -> Seq<Seq<char>> {
    seq!["id"@, "name"@]
}

/// The keys a network's name is found under.
pub open spec fn network_name_keys() -> Seq<Seq<char>> {
    seq!["name"@, "id"@]
}

/// The keys a network's driver is found under.
pub open spec fn network_driver_keys() -> Seq<Seq<char>> {
    seq!["driver"@, "plugin"@, "type"@]
}

/// The number of containers a network's container value lists: the length
/// of an array or the number of an object's entries.
pub open spec fn count_of(v: Option<JsonValue>) -> nat {
    match v {
        Some(JsonValue::Array { items, .. }) => items@.len(),
        Some(JsonValue::Object { entries, .. }) => entries@.len(),
        _ => 0,
    }
}

/// `n` is the tray's record of a network the tool listed as `obj`.
pub open spec fn network_from_json(obj: JsonValue, n: NetworkInfo) -> bool {
    &&& n.id@ == take_chars(pick_text(obj, network_id_keys()), 12)
    &&& n.name@ == pick_text(obj, network_name_keys())
    &&& n.driver@ == lowercase(pick_text(obj, network_driver_keys()))
    &&& n.scope@ == lowercase(pick_text(obj, seq!["scope"@]))
    &&& n.containers == count_of(pick_value(obj, seq!["containers"@]))
}

/// The arguments of `container` that list networks as JSON.
pub fn list_networks_args() -> (r: Vec<String>)
    ensures
        texts(r@) == seq!["network"@, "list"@, "--format"@, "json"@],
{
    let r = vec![
        String::from_str("network"),
        String::from_str("list"),
        String::from_str("--format"),
        String::from_str("json"),
    ];
    assert(texts(r@) =~= seq!["network"@, "list"@, "--format"@, "json"@]);
    r
}

/// The network list of the tray from the tool's parsed network list.
pub fn list_networks(parsed: Result<Vec<JsonValue>, ListingError>) -> (r: Result<Vec<NetworkInfo>, String>)
    ensures
        match parsed {
            Err(e) => r matches Err(f) && f@ == listing_error_text("network list"@, e),
            Ok(items) => r matches Ok(ns) && ns@.len() == items@.len() && forall|i: int|
                0 <= i < items@.len() ==> network_from_json(#[trigger] items@[i], ns@[i]),
        },
{
    match parsed {
        Err(e) => Err(listing_error("network list", e)),
        Ok(items) => {
            let mut out: Vec<NetworkInfo> = Vec::new();
            let mut i: usize = 0;
            while i < items.len()
                invariant
                    i <= items@.len(),
                    out@.len() == i,
                    forall|k: int| 0 <= k < i ==> network_from_json(#[trigger] items@[k], out@[k]),
                decreases items@.len() - i,
            {
                let obj = &items[i];
                let keys = ["id", "name"];
                assert(key_views(keys@) =~= network_id_keys());
                let id = pick_str(obj, &keys);
                let id_chars = chars_of(id.as_str());
                let short = take_prefix(id_chars.as_slice(), 12);
                let keys = ["name", "id"];
                assert(key_views(keys@) =~= network_name_keys());
                let name = pick_str(obj, &keys);
                let keys = ["driver", "plugin", "type"];
                assert(key_views(keys@) =~= network_driver_keys());
                let driver = to_lowercase(pick_str(obj, &keys).as_str());
                let keys = ["scope"];
                assert(key_views(keys@) =~= seq!["scope"@]);
                let scope = to_lowercase(pick_str(obj, &keys).as_str());
                let keys = ["containers"];
                assert(key_views(keys@) =~= seq!["containers"@]);
                let containers: usize = match pick(obj, &keys) {
                    Some(JsonValue::Array { items, .. }) => items.len(),
                    Some(JsonValue::Object { entries, .. }) => entries.len(),
                    _ => 0,
                };
                out.push(
                    NetworkInfo { id: string_of(short.as_slice()), name, driver, scope, containers },
                );
                i = i + 1;
            }
            Ok(out)
        },
    }
}


/// What `container inspect` printed, framed for the JSON parser: an array of
/// objects when it starts with `'['`, otherwise one object.
#[derive(Debug, PartialEq, Eq)]
pub enum InspectText {
    Array(String),
    Single(String),
}

/// The parsed answer of `container inspect`.
#[derive(Debug, PartialEq, Eq)]
pub enum InspectDoc {
    Many(Vec<JsonValue>),
    One(JsonValue),
}

/// The arguments of `container` that inspect a container.
pub fn inspect_args(id: &str) -> (r: Vec<String>)
    ensures
        texts(r@) == seq!["inspect"@, id@],
{
    let r = vec![String::from_str("inspect"), String::from_str(id)];
    assert(texts(r@) =~= seq!["inspect"@, id@]);
    r
}

/// Frames the output of `container inspect`, or gives why there is none.
pub fn inspect_frame(out: Result<CliOutput, String>) -> (r: Result<InspectText, String>)
    ensures
        match out {
            Err(e) => r matches Err(f) && f@ == e@,
            Ok(o) => if !o.success {
                r matches Err(f) && f@ == last_error_text(o.stderr@)
            } else {
                let t = trim(o.stdout@);
                if t.len() > 0 && t[0] == '[' {
                    r matches Ok(InspectText::Array(a)) && a@ == t
                } else {
                    r matches Ok(InspectText::Single(a)) && a@ == t
                }
            },
        },
{
    match out {
        Err(e) => Err(e),
        Ok(o) => if !o.success {
            Err(last_error(o.stderr.as_str()))
        } else {
            let cs = chars_of(o.stdout.as_str());
            let t = trim_chars(cs.as_slice());
            if t.len() > 0 && t[0] == '[' {
                Ok(InspectText::Array(string_of(t.as_slice())))
            } else {
                Ok(InspectText::Single(string_of(t.as_slice())))
            }
        },
    }
}

/// The inspected object: the first of an array, or the single value.
pub fn inspect_document(parsed: Result<InspectDoc, String>) -> (r: Result<JsonValue, String>)
    ensures
        match parsed {
            Err(m) => r matches Err(f) && f@ == "Invalid inspect JSON: "@ + m@,
            Ok(InspectDoc::Many(vs)) => if vs@.len() == 0 {
                r matches Err(f) && f@ == "Empty inspect result"@
            } else {
                r == Ok::<JsonValue, String>(vs@[0])
            },
            Ok(InspectDoc::One(v)) => r == Ok::<JsonValue, String>(v),
        },
{
    match parsed {
        Err(m) => Err(concat("Invalid inspect JSON: ", m.as_str())),
        Ok(InspectDoc::Many(mut vs)) => if vs.len() == 0 {
            Err(String::from_str("Empty inspect result"))
        } else {
            Ok(vs.remove(0))
        },
        Ok(InspectDoc::One(v)) => Ok(v),
    }
}

/// The texts of an environment array's items.
pub open spec fn env_texts(items: Seq<JsonValue>) -> Seq<Seq<char>> {
    items.map_values(|e: JsonValue| crate::json::value_text(e))
}

/// The environment an entry gives directly: a non-empty array under the key
/// "env" or "environment".
pub open spec fn env_entry(k: Seq<char>, v: JsonValue) -> Option<Seq<Seq<char>>> {
    if k == "env"@ || k == "environment"@ {
        match v {
            JsonValue::Array { items, .. } => if items@.len() > 0 {
                Some(env_texts(items@))
            } else {
                None
            },
            _ => None,
        }
    } else {
        None
    }
}

/// The first environment that an object's own entries give.
pub open spec fn env_direct(entries: Seq<(String, JsonValue)>) -> Option<Seq<Seq<char>>>
    decreases entries.len(),
{
    if entries.len() == 0 {
        None
    } else {
        match env_entry(entries[0].0@, entries[0].1) {
            Some(e) => Some(e),
            None => env_direct(entries.drop_first()),
        }
    }
}

/// The environment found in a JSON object: one its own entries give, or else
/// the first found in its values, searched depth-first in entry order.
pub open spec fn find_env(v: JsonValue) -> Option<Seq<Seq<char>>>
    decreases v,
{
    match v {
        JsonValue::Object { entries, .. } => match env_direct(entries@) {
            Some(e) => Some(e),
            None => find_env_values(entries@),
        },
        _ => None,
    }
}

/// The first environment found in the values of `entries`.
pub open spec fn find_env_values(entries: Seq<(String, JsonValue)>) -> Option<Seq<Seq<char>>>
    decreases entries,
{
    if entries.len() == 0 {
        None
    } else {
        match find_env(entries[0].1) {
            Some(e) => Some(e),
            None => find_env_values(entries.drop_first()),
        }
    }
}


/// The texts of an optional list of strings.
pub open spec fn opt_texts(o: Option<Vec<String>>) -> Option<Seq<Seq<char>>> {
    match o {
        Some(v) => Some(texts(v@)),
        None => None,
    }
}

/// The texts of an environment array's items.
pub fn env_strings(items: &Vec<JsonValue>) -> (r: Vec<String>)
    ensures
        texts(r@) == env_texts(items@),
{
    let mut r: Vec<String> = Vec::new();
    let mut i: usize = 0;
    while i < items.len()
        invariant
            i <= items@.len(),
            texts(r@) == env_texts(items@.subrange(0, i as int)),
        decreases items@.len() - i,
    {
        let ghost before = r@;
        let t = crate::json::val_string(&items[i]);
        r.push(t);
        assert(texts(r@) =~= texts(before).push(t@));
        assert(items@.subrange(0, i + 1) =~= items@.subrange(0, i as int).push(items@[i as int]));
        assert(env_texts(items@.subrange(0, i + 1)) =~= env_texts(items@.subrange(0, i as int)).push(t@));
        i = i + 1;
    }
    assert(items@.subrange(0, i as int) =~= items@);
    r
}

/// The first environment that an object's own entries give.
pub fn env_direct_of(entries: &Vec<(String, JsonValue)>) -> (r: Option<Vec<String>>)
    ensures
        opt_texts(r) == env_direct(entries@),
{
    let env_key = String::from_str("env");
    let environment_key = String::from_str("environment");
    let mut i: usize = 0;
    assert(entries@.skip(0) =~= entries@);
    while i < entries.len()
        invariant
            i <= entries@.len(),
            env_key@ == "env"@,
            environment_key@ == "environment"@,
            env_direct(entries@) == env_direct(entries@.skip(i as int)),
        decreases entries@.len() - i,
    {
        let ghost rest = entries@.skip(i as int);
        assert(rest.drop_first() =~= entries@.skip(i + 1));
        assert(rest[0] == entries@[i as int]);
        let (k, v) = (&entries[i].0, &entries[i].1);
        if *k == env_key || *k == environment_key {
            match v {
                JsonValue::Array { items, .. } => {
                    if items.len() > 0 {
                        let e = env_strings(items);
                        return Some(e);
                    }
                },
                _ => {},
            }
        }
        i = i + 1;
    }
    None
}

/// Searches a JSON object for an environment array, as `find_env` states.
pub fn find_env_in(v: &JsonValue) -> (r: Option<Vec<String>>)
    ensures
        opt_texts(r) == find_env(*v),
    decreases v,
{
    match v {
        JsonValue::Object { entries, .. } => {
            match env_direct_of(entries) {
                Some(e) => Some(e),
                None => {
                    let mut i: usize = 0;
                    assert(entries@.skip(0) =~= entries@);
                    while i < entries.len()
                        invariant
                            i <= entries@.len(),
                            *v matches JsonValue::Object { entries: es, .. } && es == *entries,
                            env_direct(entries@) is None,
                            find_env_values(entries@) == find_env_values(entries@.skip(i as int)),
                        decreases entries@.len() - i,
                    {
                        let ghost rest = entries@.skip(i as int);
                        assert(rest.drop_first() =~= entries@.skip(i + 1));
                        assert(rest[0] == entries@[i as int]);
                        proof {
                            assert(decreases_to!(*v => entries@[i as int].1));
                        }
                        match find_env_in(&entries[i].1) {
                            Some(e) => {
                                assert(find_env_values(rest) == Some(texts(e@)));
                                return Some(e);
                            },
                            None => {},
                        }
                        i = i + 1;
                    }
                    None
                },
            }
        },
        _ => None,
    }
}


/// The keys under which a container's configuration is searched first.
pub open spec fn env_candidate_keys() -> Seq<Seq<char>> {
    seq!["config"@, "process"@, "container"@, "specification"@, "spec"@]
}

/// The first environment found under one of `keys` of `obj`.
pub open spec fn env_from_candidates(obj: JsonValue, keys: Seq<Seq<char>>) -> Option<Seq<Seq<char>>>
    decreases keys.len(),
{
    if keys.len() == 0 {
        None
    } else {
        match crate::json::get(obj, keys[0]) {
            Some(sub) => match find_env(sub) {
                Some(e) => Some(e),
                None => env_from_candidates(obj, keys.drop_first()),
            },
            None => env_from_candidates(obj, keys.drop_first()),
        }
    }
}

/// The environment of an inspected container: the first found under its
/// configuration keys, else the first found anywhere in it, else none.
pub open spec fn container_env(obj: JsonValue) -> Seq<Seq<char>> {
    match env_from_candidates(obj, env_candidate_keys()) {
        Some(e) => e,
        None => match find_env(obj) {
            Some(e) => e,
            None => Seq::empty(),
        },
    }
}

/// The environment variables of an inspected container object.
pub fn env_of(obj: &JsonValue) -> (r: Vec<String>)
    ensures
        texts(r@) == container_env(*obj),
{
    let candidates = ["config", "process", "container", "specification", "spec"];
    let ghost all = key_views(candidates@);
    assert(all =~= env_candidate_keys());
    let mut i: usize = 0;
    assert(all.skip(0) =~= all);
    while i < candidates.len()
        invariant
            i <= candidates@.len(),
            all == key_views(candidates@),
            all == env_candidate_keys(),
            env_from_candidates(*obj, all) == env_from_candidates(*obj, all.skip(i as int)),
        decreases candidates@.len() - i,
    {
        let ghost rest = all.skip(i as int);
        assert(rest.drop_first() =~= all.skip(i + 1));
        assert(rest[0] == candidates@[i as int]@);
        match crate::json::get_exec(obj, candidates[i]) {
            Some(sub) => match find_env_in(sub) {
                Some(e) => {
                    return e;
                },
                None => {},
            },
            None => {},
        }
        i = i + 1;
    }
    match find_env_in(obj) {
        Some(e) => e,
        None => {
            let e: Vec<String> = Vec::new();
            assert(texts(e@) =~= Seq::<Seq<char>>::empty());
            e
        },
    }
}

/// The environment variables of an inspected container.
pub fn get_container_env(inspected: Result<JsonValue, String>) -> (r: Result<Vec<String>, String>)
    ensures
        match inspected {
            Err(e) => r matches Err(f) && f@ == e@,
            Ok(obj) => r matches Ok(env) && texts(env@) == container_env(obj),
        },
{
    match inspected {
        Err(e) => Err(e),
        Ok(obj) => Ok(env_of(&obj)),
    }
}


/// The keys a mount's host path is found under.
pub open spec fn source_keys() -> Seq<Seq<char>> {
    seq!["source"@, "hostPath"@, "host_path"@, "src"@]
}

/// The keys a mount's container path is found under.
pub open spec fn destination_keys() -> Seq<Seq<char>> {
    seq!["destination"@, "target"@, "containerPath"@, "container_path"@]
}

/// The keys a mount's type is found under.
pub open spec fn mount_type_keys() -> Seq<Seq<char>> {
    seq!["type"@, "mountType"@, "mount_type"@]
}

/// The keys a mount's writability is found under.
pub open spec fn rw_keys() -> Seq<Seq<char>> {
    seq!["rw"@, "readWrite"@, "read_write"@, "writable"@]
}

/// The keys a mount's mode is found under.
pub open spec fn mode_keys() -> Seq<Seq<char>> {
    seq!["mode"@, "options"@, "propagation"@]
}

/// Whether a writability value allows writing: a boolean as it is, a string
/// if it is "true" or "rw", anything else (or nothing) yes.
pub open spec fn writable(v: Option<JsonValue>) -> bool {
    match v {
        Some(JsonValue::Bool(b)) => b,
        Some(JsonValue::Str(s)) => s@ == "true"@ || s@ == "rw"@,
        _ => true,
    }
}

/// The mount a JSON value describes: one with a host or a container path.
/// A missing type counts as a bind mount; a given type is lower-cased.
pub open spec fn mount_of_json(item: JsonValue) -> Option<MountView> {
    let source = pick_text(item, source_keys());
    let destination = pick_text(item, destination_keys());
    if source.len() == 0 && destination.len() == 0 {
        None
    } else {
        let t = pick_text(item, mount_type_keys());
        Some(
            MountView {
                mount_type: if t.len() == 0 {
                    "bind"@
                } else {
                    lowercase(t)
                },
                source,
                destination,
                mode: pick_text(item, mode_keys()),
                rw: writable(pick_value(item, rw_keys())),
            },
        )
    }
}

/// The mount keys of an object, in the order they are searched.
pub open spec fn mount_keys() -> Seq<Seq<char>> {
    seq!["mounts"@, "volumes"@, "mount"@]
}

/// The mounts that the items of a mounts array describe.
pub open spec fn parsed_mounts(items: Seq<JsonValue>) -> Seq<MountView> {
    items.filter_map(|x: JsonValue| mount_of_json(x))
}

/// The mounts listed directly in an object's arrays under `keys`.
pub open spec fn direct_mounts(entries: Seq<(String, JsonValue)>, keys: Seq<Seq<char>>) -> Seq<MountView>
    decreases keys.len(),
{
    if keys.len() == 0 {
        Seq::empty()
    } else {
        (match crate::json::lookup(entries, keys[0]) {
            Some(JsonValue::Array { items, .. }) => parsed_mounts(items@),
            _ => Seq::empty(),
        }) + direct_mounts(entries, keys.drop_first())
    }
}

/// All mounts found in a JSON value: for an object, those in its mounts
/// arrays and then those found in each of its values; for an array, those
/// found in each item.
pub open spec fn mounts_of(v: JsonValue) -> Seq<MountView>
    decreases v,
{
    match v {
        JsonValue::Object { entries, .. } => direct_mounts(entries@, mount_keys()) + mounts_in_entries(entries@),
        JsonValue::Array { items, .. } => mounts_in_items(items@),
        _ => Seq::empty(),
    }
}

/// The mounts found in the values of `entries`, in order.
pub open spec fn mounts_in_entries(entries: Seq<(String, JsonValue)>) -> Seq<MountView>
    decreases entries,
{
    if entries.len() == 0 {
        Seq::empty()
    } else {
        mounts_of(entries[0].1) + mounts_in_entries(entries.drop_first())
    }
}

/// The mounts found in `items`, in order.
pub open spec fn mounts_in_items(items: Seq<JsonValue>) -> Seq<MountView>
    decreases items,
{
    if items.len() == 0 {
        Seq::empty()
    } else {
        mounts_of(items[0]) + mounts_in_items(items.drop_first())
    }
}

/// The mount a JSON value describes.
pub fn parse_mount(item: &JsonValue) -> (r: Option<MountInfo>)
    ensures
        match r {
            Some(m) => mount_of_json(*item) == Some(m@),
            None => mount_of_json(*item) is None,
        },
{
    let keys = ["source", "hostPath", "host_path", "src"];
    assert(key_views(keys@) =~= source_keys());
    let source = pick_str(item, &keys);
    let keys = ["destination", "target", "containerPath", "container_path"];
    assert(key_views(keys@) =~= destination_keys());
    let destination = pick_str(item, &keys);
    if source.as_str().is_empty() && destination.as_str().is_empty() {
        return None;
    }
    let keys = ["type", "mountType", "mount_type"];
    assert(key_views(keys@) =~= mount_type_keys());
    let t = pick_str(item, &keys);
    let mount_type = if t.as_str().is_empty() {
        String::from_str("bind")
    } else {
        to_lowercase(t.as_str())
    };
    let keys = ["rw", "readWrite", "read_write", "writable"];
    assert(key_views(keys@) =~= rw_keys());
    let rw = match pick(item, &keys) {
        Some(JsonValue::Bool(b)) => *b,
        Some(JsonValue::Str(s)) => *s == String::from_str("true") || *s == String::from_str("rw"),
        _ => true,
    };
    let keys = ["mode", "options", "propagation"];
    assert(key_views(keys@) =~= mode_keys());
    let mode = pick_str(item, &keys);
    Some(MountInfo { mount_type, source, destination, mode, rw })
}

/// Appends the mounts that the items of a mounts array describe.
pub fn push_parsed_mounts(items: &Vec<JsonValue>, out: &mut Vec<MountInfo>)
    ensures
        mount_views(final(out)@) == mount_views(old(out)@) + parsed_mounts(items@),
{
    let ghost f = |x: JsonValue| mount_of_json(x);
    let ghost base = mount_views(out@);
    let mut i: usize = 0;
    assert(items@.take(0).filter_map(f) =~= Seq::<MountView>::empty());
    assert(base + items@.take(0).filter_map(f) =~= base);
    while i < items.len()
        invariant
            i <= items@.len(),
            f == (|x: JsonValue| mount_of_json(x)),
            mount_views(out@) == base + items@.take(i as int).filter_map(f),
        decreases items@.len() - i,
    {
        proof {
            items@.lemma_filter_map_take_succ(f, i as int);
        }
        let ghost before = out@;
        match parse_mount(&items[i]) {
            Some(m) => {
                out.push(m);
                assert(mount_views(out@) =~= mount_views(before).push(m@));
            },
            None => {},
        }
        assert(mount_views(out@) =~= base + items@.take(i + 1).filter_map(f));
        i = i + 1;
    }
    assert(items@.take(i as int) =~= items@);
}

/// Appends every mount found in `v`, as `mounts_of` orders them.
pub fn collect_mounts(v: &JsonValue, out: &mut Vec<MountInfo>)
    ensures
        mount_views(final(out)@) == mount_views(old(out)@) + mounts_of(*v),
    decreases v,
{
    let ghost base = mount_views(out@);
    match v {
        JsonValue::Object { entries, .. } => {
            let keys = ["mounts", "volumes", "mount"];
            let ghost all = key_views(keys@);
            assert(all =~= mount_keys());
            let mut k: usize = 0;
            assert(all.skip(0) =~= all);
            assert(base + Seq::<MountView>::empty() =~= base);
            while k < keys.len()
                invariant
                    k <= keys@.len(),
                    all == key_views(keys@),
                    mount_views(out@) + direct_mounts(entries@, all.skip(k as int)) == base + direct_mounts(entries@, all),
                decreases keys@.len() - k,
            {
                let ghost rest = all.skip(k as int);
                assert(rest.drop_first() =~= all.skip(k + 1));
                assert(rest[0] == keys@[k as int]@);
                let key = String::from_str(keys[k]);
                let ghost before = mount_views(out@);
                match crate::json::lookup_exec(entries, &key) {
                    Some(JsonValue::Array { items, .. }) => {
                        push_parsed_mounts(items, out);
                        assert(mount_views(out@) + direct_mounts(entries@, all.skip(k + 1)) =~= before
                            + direct_mounts(entries@, rest));
                    },
                    _ => {
                        assert(mount_views(out@) + direct_mounts(entries@, all.skip(k + 1)) =~= before
                            + direct_mounts(entries@, rest));
                    },
                }
                k = k + 1;
            }
            assert(all.skip(k as int).len() == 0);
            let ghost mid = mount_views(out@);
            let mut i: usize = 0;
            assert(entries@.skip(0) =~= entries@);
            assert(mid + mounts_in_entries(entries@) =~= base + mounts_of(*v));
            while i < entries.len()
                invariant
                    i <= entries@.len(),
                    *v matches JsonValue::Object { entries: es, .. } && es == *entries,
                    mount_views(out@) + mounts_in_entries(entries@.skip(i as int)) == base + mounts_of(*v),
                decreases entries@.len() - i,
            {
                let ghost rest = entries@.skip(i as int);
                assert(rest.drop_first() =~= entries@.skip(i + 1));
                assert(rest[0] == entries@[i as int]);
                let ghost before = mount_views(out@);
                proof {
                    assert(decreases_to!(*v => entries@[i as int].1));
                }
                collect_mounts(&entries[i].1, out);
                assert(mount_views(out@) + mounts_in_entries(entries@.skip(i + 1)) =~= before + mounts_in_entries(rest));
                i = i + 1;
            }
            assert(mounts_in_entries(entries@.skip(i as int)) =~= Seq::<MountView>::empty());
            assert(mount_views(out@) =~= mount_views(out@) + mounts_in_entries(entries@.skip(i as int)));
        },
        JsonValue::Array { items, .. } => {
            let mut i: usize = 0;
            assert(items@.skip(0) =~= items@);
            assert(base + mounts_in_items(items@) =~= base + mounts_of(*v));
            while i < items.len()
                invariant
                    i <= items@.len(),
                    *v matches JsonValue::Array { items: is, .. } && is == *items,
                    mount_views(out@) + mounts_in_items(items@.skip(i as int)) == base + mounts_of(*v),
                decreases items@.len() - i,
            {
                let ghost rest = items@.skip(i as int);
                assert(rest.drop_first() =~= items@.skip(i + 1));
                assert(rest[0] == items@[i as int]);
                let ghost before = mount_views(out@);
                proof {
                    assert(decreases_to!(*v => items@[i as int]));
                }
                collect_mounts(&items[i], out);
                assert(mount_views(out@) + mounts_in_items(items@.skip(i + 1)) =~= before + mounts_in_items(rest));
                i = i + 1;
            }
            assert(mounts_in_items(items@.skip(i as int)) =~= Seq::<MountView>::empty());
            assert(mount_views(out@) =~= mount_views(out@) + mounts_in_items(items@.skip(i as int)));
        },
        _ => {
            assert(mount_views(out@) =~= base + mounts_of(*v));
        },
    }
}

/// The mounts of an inspected container that the tray offers: those found
/// anywhere in the inspection whose host path it can open, in order.
pub fn get_container_mounts(inspected: Result<JsonValue, String>) -> (r: Result<Vec<MountInfo>, String>)
    ensures
        match inspected {
            Err(e) => r matches Err(f) && f@ == e@,
            Ok(obj) => r matches Ok(ms) && mount_views(ms@) == mounts_of(obj).filter(
                |m: MountView| host_visible(m),
            ),
        },
{
    match inspected {
        Err(e) => Err(e),
        Ok(obj) => {
            let mut all: Vec<MountInfo> = Vec::new();
            collect_mounts(&obj, &mut all);
            assert(mount_views(all@) =~= mounts_of(obj)) by {
                assert(mount_views(Seq::<MountInfo>::empty()) =~= Seq::<MountView>::empty());
            }
            let ghost found = mount_views(all@);
            let ghost keep = |m: MountView| host_visible(m);
            let mut rest = all;
            let mut kept: Vec<MountInfo> = Vec::new();
            let ghost mut i: int = 0;
            assert(found.take(0).filter(keep) =~= Seq::<MountView>::empty());
            assert(mount_views(kept@) =~= Seq::<MountView>::empty());
            while rest.len() > 0
                invariant
                    0 <= i <= found.len(),
                    mount_views(rest@) == found.skip(i),
                    keep == (|m: MountView| host_visible(m)),
                    mount_views(kept@) == found.take(i).filter(keep),
                decreases rest@.len(),
            {
                let ghost old_rest = rest@;
                assert(mount_views(old_rest).len() == old_rest.len());
                assert(found.skip(i).len() == old_rest.len());
                let m = rest.remove(0);
                assert(mount_views(old_rest)[0] == old_rest[0]@);
                assert(found.skip(i)[0] == found[i]);
                assert(m@ == found[i]);
                assert(rest@ =~= old_rest.drop_first());
                assert(mount_views(rest@) =~= mount_views(old_rest).drop_first());
                assert(mount_views(rest@) =~= found.skip(i + 1));
                assert(found.take(i + 1) =~= found.take(i).push(found[i]));
                proof {
                    found.take(i).lemma_filter_push(found[i], keep);
                }
                let ghost before = kept@;
                if is_host_visible(&m) {
                    kept.push(m);
                    assert(mount_views(kept@) =~= mount_views(before).push(m@));
                }
                proof {
                    i = i + 1;
                }
            }
            assert(found.take(i) =~= found);
            Ok(kept)
        },
    }
}


/// The arguments of `container` that start its backend.
pub fn system_start_args() -> (r: Vec<String>)
    ensures
        texts(r@) == seq!["system"@, "start"@],
{
    let r = vec![String::from_str("system"), String::from_str("start")];
    assert(texts(r@) =~= seq!["system"@, "start"@]);
    r
}

/// The answer to starting the backend (which succeeds when it already runs).
pub fn system_start(out: Result<CliOutput, String>) -> (r: Result<(), String>)
    ensures
        match out {
            Err(e) => r matches Err(f) && f@ == e@,
            Ok(o) => if o.success {
                r is Ok
            } else {
                r matches Err(f) && f@ == "container system start failed: "@ + last_error_text(o.stderr@)
            },
        },
{
    match out {
        Err(e) => Err(e),
        Ok(o) => if o.success {
            Ok(())
        } else {
            let msg = last_error(o.stderr.as_str());
            Err(concat("container system start failed: ", msg.as_str()))
        },
    }
}

/// The arguments of `container` that start a container.
pub fn start_container_args(id: &str) -> (r: Vec<String>)
    ensures
        texts(r@) == seq!["start"@, id@],
{
    let r = vec![String::from_str("start"), String::from_str(id)];
    assert(texts(r@) =~= seq!["start"@, id@]);
    r
}

/// The answer to starting a container.
pub fn start_container(out: Result<CliOutput, String>) -> (r: Result<(), String>)
    ensures
        match r {
            Ok(()) => unit_outcome(out) == Ok::<(), Seq<char>>(()),
            Err(e) => unit_outcome(out) == Err::<(), Seq<char>>(e@),
        },
{
    unit_result(out)
}

/// The arguments of `container` that stop a container.
pub fn stop_container_args(id: &str) -> (r: Vec<String>)
    ensures
        texts(r@) == seq!["stop"@, id@],
{
    let r = vec![String::from_str("stop"), String::from_str(id)];
    assert(texts(r@) =~= seq!["stop"@, id@]);
    r
}

/// The answer to stopping a container.
pub fn stop_container(out: Result<CliOutput, String>) -> (r: Result<(), String>)
    ensures
        match r {
            Ok(()) => unit_outcome(out) == Ok::<(), Seq<char>>(()),
            Err(e) => unit_outcome(out) == Err::<(), Seq<char>>(e@),
        },
{
    unit_result(out)
}

/// The commands that restart a container, which the tool cannot do in one:
/// a stop, whose outcome is ignored, then a start.
pub fn restart_container_args(id: &str) -> (r: (Vec<String>, Vec<String>))
    ensures
        texts(r.0@) == seq!["stop"@, id@],
        texts(r.1@) == seq!["start"@, id@],
{
    (stop_container_args(id), start_container_args(id))
}

/// The answer to restarting a container: that of its start.
pub fn restart_container(start_out: Result<CliOutput, String>) -> (r: Result<(), String>)
    ensures
        match r {
            Ok(()) => unit_outcome(start_out) == Ok::<(), Seq<char>>(()),
            Err(e) => unit_outcome(start_out) == Err::<(), Seq<char>>(e@),
        },
{
    start_container(start_out)
}

/// The arguments of `container` that delete a container, forcibly if asked.
pub fn remove_container_args(id: &str, force: bool) -> (r: Vec<String>)
    ensures
        texts(r@) == if force {
            seq!["delete"@, "--force"@, id@]
        } else {
            seq!["delete"@, id@]
        },
{
    let mut r = vec![String::from_str("delete")];
    if force {
        r.push(String::from_str("--force"));
    }
    r.push(String::from_str(id));
    if force {
        assert(texts(r@) =~= seq!["delete"@, "--force"@, id@]);
    } else {
        assert(texts(r@) =~= seq!["delete"@, id@]);
    }
    r
}

/// The answer to deleting a container.
pub fn remove_container(out: Result<CliOutput, String>) -> (r: Result<(), String>)
    ensures
        match r {
            Ok(()) => unit_outcome(out) == Ok::<(), Seq<char>>(()),
            Err(e) => unit_outcome(out) == Err::<(), Seq<char>>(e@),
        },
{
    unit_result(out)
}

/// The arguments of `container` that delete an image.
pub fn remove_image_args(image: &str) -> (r: Vec<String>)
    ensures
        texts(r@) == seq!["image"@, "delete"@, "--force"@, image@],
{
    let r = vec![
        String::from_str("image"),
        String::from_str("delete"),
        String::from_str("--force"),
        String::from_str(image),
    ];
    assert(texts(r@) =~= seq!["image"@, "delete"@, "--force"@, image@]);
    r
}

/// The answer to deleting an image.
pub fn remove_image(out: Result<CliOutput, String>) -> (r: Result<(), String>)
    ensures
        match r {
            Ok(()) => unit_outcome(out) == Ok::<(), Seq<char>>(()),
            Err(e) => unit_outcome(out) == Err::<(), Seq<char>>(e@),
        },
{
    unit_result(out)
}

/// The arguments of `container` that pull an image without progress output.
pub fn pull_image_args(image: &str) -> (r: Vec<String>)
    ensures
        texts(r@) == seq!["image"@, "pull"@, "--progress"@, "none"@, image@],
{
    let r = vec![
        String::from_str("image"),
        String::from_str("pull"),
        String::from_str("--progress"),
        String::from_str("none"),
        String::from_str(image),
    ];
    assert(texts(r@) =~= seq!["image"@, "pull"@, "--progress"@, "none"@, image@]);
    r
}

/// The answer to pulling an image.
pub fn pull_image(out: Result<CliOutput, String>) -> (r: Result<(), String>)
    ensures
        match r {
            Ok(()) => unit_outcome(out) == Ok::<(), Seq<char>>(()),
            Err(e) => unit_outcome(out) == Err::<(), Seq<char>>(e@),
        },
{
    unit_result(out)
}

/// The arguments of `container` that delete a volume.
pub fn remove_volume_args(name: &str) -> (r: Vec<String>)
    ensures
        texts(r@) == seq!["volume"@, "delete"@, name@],
{
    let r = vec![String::from_str("volume"), String::from_str("delete"), String::from_str(name)];
    assert(texts(r@) =~= seq!["volume"@, "delete"@, name@]);
    r
}

/// The answer to deleting a volume.
pub fn remove_volume(out: Result<CliOutput, String>) -> (r: Result<(), String>)
    ensures
        match r {
            Ok(()) => unit_outcome(out) == Ok::<(), Seq<char>>(()),
            Err(e) => unit_outcome(out) == Err::<(), Seq<char>>(e@),
        },
{
    unit_result(out)
}

/// The arguments of `container` that delete a network.
pub fn remove_network_args(name: &str) -> (r: Vec<String>)
    ensures
        texts(r@) == seq!["network"@, "delete"@, name@],
{
    let r = vec![String::from_str("network"), String::from_str("delete"), String::from_str(name)];
    assert(texts(r@) =~= seq!["network"@, "delete"@, name@]);
    r
}

/// The answer to deleting a network.
pub fn remove_network(out: Result<CliOutput, String>) -> (r: Result<(), String>)
    ensures
        match r {
            Ok(()) => unit_outcome(out) == Ok::<(), Seq<char>>(()),
            Err(e) => unit_outcome(out) == Err::<(), Seq<char>>(e@),
        },
{
    unit_result(out)
}

/// The `-p host:container` arguments of port mappings, in order.
pub open spec fn port_args(ps: Seq<PortMapping>) -> Seq<Seq<char>>
    decreases ps.len(),
{
    if ps.len() == 0 {
        Seq::empty()
    } else {
        port_args(ps.drop_last()) + seq!["-p"@, ps.last().host@ + ":"@ + ps.last().container@]
    }
}

/// The `-v host:container` arguments of volume mappings, in order.
pub open spec fn volume_args(vs: Seq<VolumeMapping>) -> Seq<Seq<char>>
    decreases vs.len(),
{
    if vs.len() == 0 {
        Seq::empty()
    } else {
        volume_args(vs.drop_last()) + seq!["-v"@, vs.last().host@ + ":"@ + vs.last().container@]
    }
}

/// The `-e VAR=value` arguments of environment entries, in order.
pub open spec fn env_args(es: Seq<Seq<char>>) -> Seq<Seq<char>>
    decreases es.len(),
{
    if es.len() == 0 {
        Seq::empty()
    } else {
        env_args(es.drop_last()) + seq!["-e"@, es.last()]
    }
}

/// The arguments of `container` that create a container: `run ... -d image`
/// when it is to be started at once, otherwise `create ... image`.
pub open spec fn create_args(input: CreateContainerInput) -> Seq<Seq<char>> {
    let options = (match input.name {
        Some(n) => seq!["--name"@, n@],
        None => Seq::empty(),
    }) + port_args(input.ports@) + volume_args(input.volumes@) + env_args(texts(input.env@));
    if input.auto_start {
        seq!["run"@] + options + seq!["-d"@, input.image@]
    } else {
        seq!["create"@] + options + seq![input.image@]
    }
}

proof fn lemma_port_args_at(ps: Seq<PortMapping>)
    ensures
        port_args(ps).len() == 2 * ps.len(),
        forall|k: int| 0 <= k < ps.len() ==> (port_args(ps)[2 * k], port_args(ps)[2 * k + 1]) == ("-p"@, (#[trigger] ps[k]).host@ + ":"@ + ps[k].container@),
    decreases ps.len(),
{
    reveal_strlit("-p");
    if ps.len() > 0 {
        let p = ps.drop_last();
        lemma_port_args_at(p);
        let q = port_args(p);
        let last = seq!["-p"@, ps.last().host@ + ":"@ + ps.last().container@];
        assert(port_args(ps) == q + last);
        assert forall|k: int| 0 <= k < ps.len() implies (port_args(ps)[2 * k], port_args(ps)[2 * k + 1]) == ("-p"@, (#[trigger] ps[k]).host@ + ":"@ + ps[k].container@) by {
            if k < p.len() {
                assert(p[k] == ps[k]);
                assert(2 * k + 1 < q.len());
                assert((q + last)[2 * k] == q[2 * k]);
                assert((q + last)[2 * k + 1] == q[2 * k + 1]);
            } else {
                assert(k == p.len());
                assert(2 * k == q.len());
                assert((q + last)[2 * k] == last[0]);
                assert((q + last)[2 * k + 1] == last[1]);
            }
        }
    }
}

proof fn lemma_volume_args_at(vs: Seq<VolumeMapping>)
    ensures
        volume_args(vs).len() == 2 * vs.len(),
        forall|k: int| 0 <= k < vs.len() ==> (volume_args(vs)[2 * k], volume_args(vs)[2 * k + 1]) == ("-v"@, (#[trigger] vs[k]).host@ + ":"@ + vs[k].container@),
    decreases vs.len(),
{
    reveal_strlit("-v");
    if vs.len() > 0 {
        let p = vs.drop_last();
        lemma_volume_args_at(p);
        let q = volume_args(p);
        let last = seq!["-v"@, vs.last().host@ + ":"@ + vs.last().container@];
        assert(volume_args(vs) == q + last);
        assert forall|k: int| 0 <= k < vs.len() implies (volume_args(vs)[2 * k], volume_args(vs)[2 * k + 1]) == ("-v"@, (#[trigger] vs[k]).host@ + ":"@ + vs[k].container@) by {
            if k < p.len() {
                assert(p[k] == vs[k]);
                assert(2 * k + 1 < q.len());
                assert((q + last)[2 * k] == q[2 * k]);
                assert((q + last)[2 * k + 1] == q[2 * k + 1]);
            } else {
                assert(k == p.len());
                assert(2 * k == q.len());
                assert((q + last)[2 * k] == last[0]);
                assert((q + last)[2 * k + 1] == last[1]);
            }
        }
    }
}

proof fn lemma_env_args_at(es: Seq<Seq<char>>)
    ensures
        env_args(es).len() == 2 * es.len(),
        forall|k: int| 0 <= k < es.len() ==> (env_args(es)[2 * k], env_args(es)[2 * k + 1]) == ("-e"@, #[trigger] es[k]),
    decreases es.len(),
{
    reveal_strlit("-e");
    if es.len() > 0 {
        let p = es.drop_last();
        lemma_env_args_at(p);
        let q = env_args(p);
        let last = seq!["-e"@, es.last()];
        assert(env_args(es) == q + last);
        assert forall|k: int| 0 <= k < es.len() implies (env_args(es)[2 * k], env_args(es)[2 * k + 1]) == ("-e"@, #[trigger] es[k]) by {
            if k < p.len() {
                assert(p[k] == es[k]);
                assert(2 * k + 1 < q.len());
                assert((q + last)[2 * k] == q[2 * k]);
                assert((q + last)[2 * k + 1] == q[2 * k + 1]);
            } else {
                assert(k == p.len());
                assert(2 * k == q.len());
                assert((q + last)[2 * k] == last[0]);
                assert((q + last)[2 * k + 1] == last[1]);
            }
        }
    }
}

/// The arguments that create a container, position by position: `run`
/// (when it is started at once) or `create` first, then `--name` and the
/// name when one is given, then `-p host:container` for each port mapping,
/// `-v host:container` for each volume mapping and `-e entry` for each
/// environment entry, each in the order given, then `-d` when the container
/// is started at once, and the image last. Nothing else is in them.
pub proof fn lemma_create_args_layout(input: CreateContainerInput)
    ensures
        ({
            let a = create_args(input);
            let o: int = if input.name is Some { 3 } else { 1 };
            let np = input.ports@.len() as int;
            let nv = input.volumes@.len() as int;
            let ne = input.env@.len() as int;
            &&& a.len() == o + 2 * np + 2 * nv + 2 * ne + if input.auto_start { 2int } else { 1int }
            &&& a[0] == if input.auto_start { "run"@ } else { "create"@ }
            &&& (input.name matches Some(n) ==> a[1] == "--name"@ && a[2] == n@)
            &&& forall|k: int| 0 <= k < np ==> (a[o + 2 * k], a[o + 2 * k + 1]) == ("-p"@, (
            #[trigger] input.ports@[k]).host@ + ":"@ + input.ports@[k].container@)
            &&& forall|k: int| 0 <= k < nv ==> (a[o + 2 * np + 2 * k], a[o + 2 * np + 2 * k + 1]) == ("-v"@, (
            #[trigger] input.volumes@[k]).host@ + ":"@ + input.volumes@[k].container@)
            &&& forall|k: int| 0 <= k < ne ==> (a[o + 2 * np + 2 * nv + 2 * k], a[o + 2 * np + 2 * nv + 2 * k + 1]) == ("-e"@, (
            #[trigger] input.env@[k])@)
            &&& (input.auto_start ==> a[a.len() - 2] == "-d"@)
            &&& a[a.len() - 1] == input.image@
        }),
{
    reveal_strlit("-p");
    reveal_strlit("-v");
    reveal_strlit("-e");
    let ps = input.ports@;
    let vs = input.volumes@;
    let es = texts(input.env@);
    lemma_port_args_at(ps);
    lemma_volume_args_at(vs);
    lemma_env_args_at(es);
    let name_part = match input.name {
        Some(n) => seq!["--name"@, n@],
        None => Seq::<Seq<char>>::empty(),
    };
    let head = if input.auto_start { "run"@ } else { "create"@ };
    let tail = if input.auto_start { seq!["-d"@, input.image@] } else { seq![input.image@] };
    let pa = port_args(ps);
    let va = volume_args(vs);
    let ea = env_args(es);
    let a0 = seq![head] + name_part;
    let a1 = a0 + pa;
    let a2 = a1 + va;
    let a3 = a2 + ea;
    let a = create_args(input);
    assert(a =~= a3 + tail);
    let o: int = if input.name is Some { 3 } else { 1 };
    assert(a0.len() == o);
    let np = ps.len() as int;
    let nv = vs.len() as int;
    let ne = es.len() as int;
    assert forall|k: int| 0 <= k < np implies (a[o + 2 * k], a[o + 2 * k + 1]) == ("-p"@, (
    #[trigger] input.ports@[k]).host@ + ":"@ + input.ports@[k].container@) by {
        assert((pa[2 * k], pa[2 * k + 1]) == ("-p"@, ps[k].host@ + ":"@ + ps[k].container@));
        assert(a1[o + 2 * k] == pa[2 * k]);
        assert(a1[o + 2 * k + 1] == pa[2 * k + 1]);
        assert(a2[o + 2 * k] == a1[o + 2 * k]);
        assert(a2[o + 2 * k + 1] == a1[o + 2 * k + 1]);
        assert(a3[o + 2 * k] == a2[o + 2 * k]);
        assert(a3[o + 2 * k + 1] == a2[o + 2 * k + 1]);
    }
    assert forall|k: int| 0 <= k < nv implies (a[o + 2 * np + 2 * k], a[o + 2 * np + 2 * k + 1]) == ("-v"@, (
    #[trigger] input.volumes@[k]).host@ + ":"@ + input.volumes@[k].container@) by {
        assert((va[2 * k], va[2 * k + 1]) == ("-v"@, vs[k].host@ + ":"@ + vs[k].container@));
        assert(a2[o + 2 * np + 2 * k] == va[2 * k]);
        assert(a2[o + 2 * np + 2 * k + 1] == va[2 * k + 1]);
        assert(a3[o + 2 * np + 2 * k] == a2[o + 2 * np + 2 * k]);
        assert(a3[o + 2 * np + 2 * k + 1] == a2[o + 2 * np + 2 * k + 1]);
    }
    assert forall|k: int| 0 <= k < ne implies (a[o + 2 * np + 2 * nv + 2 * k], a[o + 2 * np + 2 * nv + 2 * k + 1]) == ("-e"@, (
    #[trigger] input.env@[k])@) by {
        assert((ea[2 * k], ea[2 * k + 1]) == ("-e"@, es[k]));
        assert(es[k] == input.env@[k]@);
        assert(a3[o + 2 * np + 2 * nv + 2 * k] == ea[2 * k]);
        assert(a3[o + 2 * np + 2 * nv + 2 * k + 1] == ea[2 * k + 1]);
    }
}

/// Appends a flag and its value.
fn push_flag(args: &mut Vec<String>, flag: &str, value: String)
    ensures
        texts(final(args)@) == texts(old(args)@) + seq![flag@, value@],
{
    let ghost before = args@;
    let f = String::from_str(flag);
    args.push(f);
    args.push(value);
    assert(texts(args@) =~= texts(before) + seq![f@, value@]);
}

/// `a`, a colon, and `b`.
fn colon_pair(a: &str, b: &str) -> (r: String)
    ensures
        r@ == a@ + ":"@ + b@,
{
    let mut r = concat(a, ":");
    r.append(b);
    r
}

/// Builds the arguments of `container` that create the container `input` describes.
pub fn create_container_args(input: &CreateContainerInput) -> (r: Vec<String>)
    ensures
        texts(r@) == create_args(*input),
{
    let mut args: Vec<String> = vec![String::from_str("run")];
    let ghost head = texts(args@);
    match &input.name {
        Some(n) => push_flag(&mut args, "--name", n.clone()),
        None => {},
    }
    let ghost after_name = texts(args@);
    let mut i: usize = 0;
    while i < input.ports.len()
        invariant
            i <= input.ports@.len(),
            texts(args@) == after_name + port_args(input.ports@.subrange(0, i as int)),
        decreases input.ports@.len() - i,
    {
        let p = &input.ports[i];
        push_flag(&mut args, "-p", colon_pair(p.host.as_str(), p.container.as_str()));
        assert(input.ports@.subrange(0, i + 1).drop_last() =~= input.ports@.subrange(0, i as int));
        i = i + 1;
    }
    assert(input.ports@.subrange(0, i as int) =~= input.ports@);
    let ghost after_ports = texts(args@);
    let mut i: usize = 0;
    while i < input.volumes.len()
        invariant
            i <= input.volumes@.len(),
            texts(args@) == after_ports + volume_args(input.volumes@.subrange(0, i as int)),
        decreases input.volumes@.len() - i,
    {
        let v = &input.volumes[i];
        push_flag(&mut args, "-v", colon_pair(v.host.as_str(), v.container.as_str()));
        assert(input.volumes@.subrange(0, i + 1).drop_last() =~= input.volumes@.subrange(0, i as int));
        i = i + 1;
    }
    assert(input.volumes@.subrange(0, i as int) =~= input.volumes@);
    let ghost after_volumes = texts(args@);
    let mut i: usize = 0;
    while i < input.env.len()
        invariant
            i <= input.env@.len(),
            texts(args@) == after_volumes + env_args(texts(input.env@).subrange(0, i as int)),
        decreases input.env@.len() - i,
    {
        push_flag(&mut args, "-e", input.env[i].clone());
        assert(texts(input.env@).subrange(0, i + 1).drop_last() =~= texts(input.env@).subrange(0, i as int));
        i = i + 1;
    }
    assert(texts(input.env@).subrange(0, i as int) =~= texts(input.env@));
    let ghost body = texts(args@);
    let ghost name_part = match &input.name {
        Some(n) => seq!["--name"@, n@],
        None => Seq::<Seq<char>>::empty(),
    };
    assert(after_name =~= head + name_part);
    assert(head =~= seq!["run"@]);
    let ghost tail_args = name_part + port_args(input.ports@) + volume_args(input.volumes@) + env_args(texts(input.env@));
    assert(body =~= seq!["run"@] + tail_args);
    if input.auto_start {
        let d = String::from_str("-d");
        args.push(d);
        assert(texts(args@) =~= body.push("-d"@));
    } else {
        let c0 = String::from_str("create");
        let ghost pre = args@;
        args.set(0, c0);
        assert(texts(args@) =~= texts(pre).update(0, "create"@));
        assert(texts(args@) =~= seq!["create"@] + tail_args);
    }
    let img = input.image.clone();
    let ghost pre2 = texts(args@);
    args.push(img);
    proof {
        assert(texts(args@) =~= pre2.push(img@));
        assert(texts(args@) =~= create_args(*input));
    }
    args
}

/// The ID of a created container: the requested name when there is a
/// non-empty one (the tool treats a name as the ID), otherwise what it printed.
pub open spec fn created_id(input: CreateContainerInput, stdout: Seq<char>) -> Seq<char> {
    match input.name {
        Some(n) => if n@.len() > 0 {
            n@
        } else {
            trim(stdout)
        },
        None => trim(stdout),
    }
}

/// The answer to creating a container: its ID, or why it failed.
pub fn create_container(input: &CreateContainerInput, out: Result<CliOutput, String>) -> (r: Result<String, String>)
    ensures
        match out {
            Err(e) => r matches Err(f) && f@ == e@,
            Ok(o) => if o.success {
                r matches Ok(id) && id@ == created_id(*input, o.stdout@)
            } else {
                r matches Err(f) && f@ == last_error_text(o.stderr@)
            },
        },
{
    match out {
        Err(e) => Err(e),
        Ok(o) => if !o.success {
            Err(last_error(o.stderr.as_str()))
        } else {
            let cs = chars_of(o.stdout.as_str());
            let printed = string_of(trim_chars(cs.as_slice()).as_slice());
            match &input.name {
                Some(n) => if n.as_str().is_empty() {
                    Ok(printed)
                } else {
                    Ok(n.clone())
                },
                None => Ok(printed),
            }
        },
    }
}

/// The arguments of `container` that print a container's logs, the last
/// `tail` lines unless that is "all".
pub open spec fn logs_args(id: Seq<char>, tail: Option<Seq<char>>) -> Seq<Seq<char>> {
    seq!["logs"@] + (match tail {
        Some(n) => if n == "all"@ {
            Seq::empty()
        } else {
            seq!["-n"@, n]
        },
        None => Seq::empty(),
    }) + seq![id]
}

/// Builds the arguments that print a container's logs.
pub fn get_container_logs_args(id: &str, tail: Option<&str>) -> (r: Vec<String>)
    ensures
        texts(r@) == logs_args(
            id@,
            match tail {
                Some(t) => Some(t@),
                None => None,
            },
        ),
{
    let mut r = vec![String::from_str("logs")];
    let ghost head = texts(r@);
    match tail {
        Some(n) => {
            let t = String::from_str(n);
            if !(t == String::from_str("all")) {
                push_flag(&mut r, "-n", t);
            }
        },
        None => {},
    }
    let ghost mid = texts(r@);
    let idv = String::from_str(id);
    r.push(idv);
    assert(texts(r@) =~= mid.push(id@));
    assert(texts(r@) =~= logs_args(
        id@,
        match tail {
            Some(t) => Some(t@),
            None => None,
        },
    ));
    r
}

/// The log lines of a container: those of its output, then those of its
/// error output, without one final empty line.
pub open spec fn log_lines(stdout: Seq<char>, stderr: Seq<char>) -> Seq<Seq<char>> {
    let all = lines(stdout) + lines(stderr);
    if all.len() > 0 && all.last().len() == 0 {
        all.drop_last()
    } else {
        all
    }
}

/// The logs of a container, or why there are none.
pub fn get_container_logs(out: Result<CliOutput, String>) -> (r: Result<Vec<String>, String>)
    ensures
        match out {
            Err(e) => r matches Err(f) && f@ == e@,
            Ok(o) => if o.success {
                r matches Ok(ls) && texts(ls@) == log_lines(o.stdout@, o.stderr@)
            } else {
                r matches Err(f) && f@ == last_error_text(o.stderr@)
            },
        },
{
    match out {
        Err(e) => Err(e),
        Ok(o) => if !o.success {
            Err(last_error(o.stderr.as_str()))
        } else {
            let a = chars_of(o.stdout.as_str());
            let b = chars_of(o.stderr.as_str());
            let la = split_lines(a.as_slice());
            let lb = split_lines(b.as_slice());
            let ghost all = views(la@) + views(lb@);
            let mut out_lines: Vec<String> = Vec::new();
            let mut i: usize = 0;
            while i < la.len()
                invariant
                    i <= la@.len(),
                    texts(out_lines@) == views(la@).subrange(0, i as int),
                decreases la@.len() - i,
            {
                let ghost before = out_lines@;
                let s = string_of(la[i].as_slice());
                out_lines.push(s);
                assert(texts(out_lines@) =~= texts(before).push(s@));
                assert(views(la@)[i as int] == la@[i as int]@);
                assert(texts(out_lines@) =~= views(la@).subrange(0, i + 1));
                i = i + 1;
            }
            let mut j: usize = 0;
            while j < lb.len()
                invariant
                    i == la@.len(),
                    j <= lb@.len(),
                    texts(out_lines@) == views(la@) + views(lb@).subrange(0, j as int),
                decreases lb@.len() - j,
            {
                let ghost before = out_lines@;
                let s = string_of(lb[j].as_slice());
                out_lines.push(s);
                assert(texts(out_lines@) =~= texts(before).push(s@));
                assert(views(lb@)[j as int] == lb@[j as int]@);
                assert(texts(out_lines@) =~= views(la@) + views(lb@).subrange(0, j + 1));
                j = j + 1;
            }
            assert(texts(out_lines@) =~= all);
            if out_lines.len() > 0 && out_lines[out_lines.len() - 1].as_str().is_empty() {
                out_lines.pop();
                assert(texts(out_lines@) =~= all.drop_last());
            }
            Ok(out_lines)
        },
    }
}

/// The arguments that print a container's recent logs: the tool has no
/// `--since`, so the last 200 lines are fetched and the viewer drops those it
/// already shows.
pub fn get_container_logs_since_args(id: &str, since: i64, timestamps: bool) -> (r: Vec<String>)
    ensures
        texts(r@) == logs_args(id@, Some("200"@)),
{
    get_container_logs_args(id, Some("200"))
}

/// The answer to fetching recent logs: as for all logs.
pub fn get_container_logs_since(out: Result<CliOutput, String>) -> (r: Result<Vec<String>, String>)
    ensures
        match out {
            Err(e) => r matches Err(f) && f@ == e@,
            Ok(o) => if o.success {
                r matches Ok(ls) && texts(ls@) == log_lines(o.stdout@, o.stderr@)
            } else {
                r matches Err(f) && f@ == last_error_text(o.stderr@)
            },
        },
{
    get_container_logs(out)
}

} // verus!
