//! The records the tray shows (containers, images, volumes, networks, mounts,
//! files) and what is computed from the Docker Engine's answers.

use vstd::prelude::*;
use crate::cli::{concat, texts, CliOutput};
use crate::text::{
    chars_of, copy_range, find, find_chars, has_prefix, lemma_find_bounds, lemma_text_lt_irreflexive,
    starts_with, lemma_text_lt_total, lemma_text_lt_transitive,
    parse_bounded, parse_unsigned_chars, string_of, take_chars, take_prefix, text_less, text_lt,
};

verus! {

/// A port published by a container.
#[derive(Debug, PartialEq, Eq)]
pub struct PortInfo {
    pub private_port: u16,
    pub public_port: Option<u16>,
    pub port_type: String,
}

/// A container as the tray lists it.
#[derive(Debug, PartialEq, Eq)]
pub struct ContainerInfo {
    pub id: String,
    pub names: Vec<String>,
    pub image: String,
    pub state: String,
    pub status: String,
    pub ports: Vec<PortInfo>,
    pub created: i64,
    /// The container's labels, each key at most once (see `distinct_keys`).
    pub labels: Vec<(String, String)>,
}

/// An image as the tray lists it.
#[derive(Debug, PartialEq, Eq)]
pub struct ImageInfo {
    pub id: String,
    pub repo_tags: Vec<String>,
    pub size: i64,
    pub created: i64,
}

/// A volume as the tray lists it.
#[derive(Debug, PartialEq, Eq)]
pub struct VolumeInfo {
    pub name: String,
    pub driver: String,
    pub mountpoint: String,
    /// The volume's labels, each key at most once (see `distinct_keys`).
    pub labels: Vec<(String, String)>,
}

/// A network as the tray lists it.
#[derive(Debug, PartialEq, Eq)]
pub struct NetworkInfo {
    pub id: String,
    pub name: String,
    pub driver: String,
    pub scope: String,
    pub containers: usize,
}

/// Containers shown together: one compose project, or the standalone ones.
#[derive(Debug, PartialEq, Eq)]
pub struct ContainerGroup {
    pub name: String,
    pub containers: Vec<ContainerInfo>,
}

/// A requested port publication: host port and container port, as typed.
#[derive(Debug, PartialEq, Eq)]
pub struct PortMapping {
    pub host: String,
    pub container: String,
}

/// A requested bind mount: host path and container path.
#[derive(Debug, PartialEq, Eq)]
pub struct VolumeMapping {
    pub host: String,
    pub container: String,
}

/// What the user asks for when creating a container.
#[derive(Debug, PartialEq, Eq)]
pub struct CreateContainerInput {
    pub name: Option<String>,
    pub image: String,
    pub ports: Vec<PortMapping>,
    pub volumes: Vec<VolumeMapping>,
    pub env: Vec<String>,
    pub auto_start: bool,
}

/// A mount of a container, as the file explorer offers it.
#[derive(Debug, PartialEq, Eq)]
pub struct MountInfo {
    pub mount_type: String,
    pub source: String,
    pub destination: String,
    pub mode: String,
    pub rw: bool,
}

/// The contents of a `MountInfo`.
pub struct MountView {
    pub mount_type: Seq<char>,
    pub source: Seq<char>,
    pub destination: Seq<char>,
    pub mode: Seq<char>,
    pub rw: bool,
}

impl View for MountInfo {
    type V = MountView;

    open spec fn view(&self) -> MountView {
        MountView {
            mount_type: self.mount_type@,
            source: self.source@,
            destination: self.destination@,
            mode: self.mode@,
            rw: self.rw,
        }
    }
}

/// An entry of a directory listing inside a container.
#[derive(Debug, PartialEq, Eq)]
pub struct FileEntry {
    pub name: String,
    pub is_dir: bool,
    pub size: String,
    pub modified: String,
    pub permissions: String,
}

/// The characters a container ID may hold.
pub open spec fn is_ascii_alnum(c: char) -> bool {
    ('0' <= c <= '9') || ('a' <= c <= 'z') || ('A' <= c <= 'Z')
}

/// A container ID that commands may be built from: non-empty, ASCII letters and digits only.
pub open spec fn valid_container_id(id: Seq<char>) -> bool {
    id.len() > 0 && forall|i: int| 0 <= i < id.len() ==> is_ascii_alnum(#[trigger] id[i])
}

/// Accepts a non-empty ID of ASCII letters and digits, and refuses any other.
pub fn validate_container_id(id: &str) -> (r: Result<(), String>)
    ensures
        r is Ok <==> valid_container_id(id@),
        r matches Err(e) ==> e@ == "Invalid container ID"@,
{
    let cs = chars_of(id);
    if cs.len() == 0 {
        return Err(String::from_str("Invalid container ID"));
    }
    let mut i: usize = 0;
    while i < cs.len()
        invariant
            i <= cs@.len(),
            cs@ == id@,
            forall|k: int| 0 <= k < i ==> is_ascii_alnum(#[trigger] cs@[k]),
        decreases cs@.len() - i,
    {
        let c = cs[i];
        if !(('0' <= c && c <= '9') || ('a' <= c && c <= 'z') || ('A' <= c && c <= 'Z')) {
            assert(!is_ascii_alnum(id@[i as int]));
            return Err(String::from_str("Invalid container ID"));
        }
        i = i + 1;
    }
    Ok(())
}

/// The value of the first label named `key`.
pub open spec fn label_value(labels: Seq<(String, String)>, key: Seq<char>) -> Option<Seq<char>>
    decreases labels.len(),
{
    if labels.len() == 0 {
        None
    } else if labels[0].0@ == key {
        Some(labels[0].1@)
    } else {
        label_value(labels.drop_first(), key)
    }
}

/// The label that names a container's compose project.
pub open spec fn compose_label() -> Seq<char> {
    "com.docker.compose.project"@
}

/// The compose project a container belongs to, if any.
pub open spec fn project_of(c: ContainerInfo) -> Option<Seq<char>> {
    label_value(c.labels@, compose_label())
}

/// The compose project named by a container's labels.
pub fn extract_compose_project(labels: &Vec<(String, String)>) -> (r: Option<String>)
    ensures
        match r {
            Some(p) => label_value(labels@, compose_label()) == Some(p@),
            None => label_value(labels@, compose_label()) is None,
        },
{
    let key = String::from_str("com.docker.compose.project");
    let mut i: usize = 0;
    assert(labels@.subrange(0, labels@.len() as int) =~= labels@);
    while i < labels.len()
        invariant
            i <= labels@.len(),
            key@ == compose_label(),
            label_value(labels@, key@) == label_value(labels@.subrange(i as int, labels@.len() as int), key@),
        decreases labels@.len() - i,
    {
        let ghost rest = labels@.subrange(i as int, labels@.len() as int);
        assert(rest.drop_first() =~= labels@.subrange(i + 1, labels@.len() as int));
        if labels[i].0 == key {
            return Some(labels[i].1.clone());
        }
        i = i + 1;
    }
    None
}

/// The protocol of a published port, as the Engine reports it.
#[derive(Debug, Clone, Copy, PartialEq, Eq, Structural)]
pub enum PortProtocol {
    Empty,
    Tcp,
    Udp,
    Sctp,
}

/// A published port as the Engine reports it.
pub struct PortSummary {
    pub private_port: u16,
    pub public_port: Option<u16>,
    pub typ: Option<PortProtocol>,
}

/// A container as the Engine's list reports it (the fields the tray reads).
pub struct ContainerSummary {
    pub id: Option<String>,
    pub names: Option<Vec<String>>,
    pub image: Option<String>,
    pub state: Option<String>,
    pub status: Option<String>,
    pub ports: Option<Vec<PortSummary>>,
    pub created: Option<i64>,
    /// The Engine's label map as pairs, each key at most once.
    pub labels: Option<Vec<(String, String)>>,
}

/// No two labels share a key, as in the label maps of the Engine.
pub open spec fn distinct_keys(labels: Seq<(String, String)>) -> bool {
    forall|a: int, b: int| 0 <= a < b < labels.len() ==> labels[a].0@ != labels[b].0@
}

/// The labels of an Engine container summary, if any, have distinct keys.
pub open spec fn summary_labels_distinct(s: ContainerSummary) -> bool {
    match s.labels {
        Some(l) => distinct_keys(l@),
        None => true,
    }
}

/// The name the Engine's port protocol is written with (its debug name).
pub open spec fn protocol_name(p: PortProtocol) -> Seq<char> {
    match p {
        PortProtocol::Empty => "EMPTY"@,
        PortProtocol::Tcp => "TCP"@,
        PortProtocol::Udp => "UDP"@,
        PortProtocol::Sctp => "SCTP"@,
    }
}

/// The text of an optional string, empty when absent.
pub open spec fn text_or_empty(s: Option<String>) -> Seq<char> {
    match s {
        Some(x) => x@,
        None => Seq::empty(),
    }
}

/// `s` with every leading `'/'` removed.
pub open spec fn trim_slashes(s: Seq<char>) -> Seq<char>
    decreases s.len(),
{
    if s.len() > 0 && s[0] == '/' {
        trim_slashes(s.drop_first())
    } else {
        s
    }
}

/// `p` is the tray's record of the Engine's port `s`.
pub open spec fn port_from_summary(s: PortSummary, p: PortInfo) -> bool {
    &&& p.private_port == s.private_port
    &&& p.public_port == s.public_port
    &&& p.port_type@ == match s.typ {
        Some(t) => protocol_name(t),
        None => Seq::empty(),
    }
}

/// `c` is the tray's record of the Engine's container `s`.
pub open spec fn info_from_summary(s: ContainerSummary, c: ContainerInfo) -> bool {
    &&& c.id@ == take_chars(text_or_empty(s.id), 12)
    &&& texts(c.names@) == match s.names {
        Some(ns) => texts(ns@).map_values(|n: Seq<char>| trim_slashes(n)),
        None => Seq::empty(),
    }
    &&& c.image@ == text_or_empty(s.image)
    &&& c.state@ == text_or_empty(s.state)
    &&& c.status@ == text_or_empty(s.status)
    &&& match s.ports {
        Some(ps) => c.ports@.len() == ps@.len() && forall|i: int|
            0 <= i < ps@.len() ==> port_from_summary(#[trigger] ps@[i], c.ports@[i]),
        None => c.ports@.len() == 0,
    }
    &&& c.created == match s.created {
        Some(t) => t,
        None => 0,
    }
    &&& c.labels@ == match s.labels {
        Some(l) => l@,
        None => Seq::empty(),
    }
}

/// The text of an optional string, empty when absent.
pub fn string_or_empty(s: Option<String>) -> (r: String)
    ensures
        r@ == text_or_empty(s),
{
    match s {
        Some(x) => x,
        None => String::new(),
    }
}

/// `s` without its leading slashes.
pub fn strip_slashes(s: &str) -> (r: String)
    ensures
        r@ == trim_slashes(s@),
{
    let cs = chars_of(s);
    let mut i: usize = 0;
    assert(cs@.subrange(0, cs@.len() as int) =~= cs@);
    while i < cs.len() && cs[i] == '/'
        invariant
            i <= cs@.len(),
            trim_slashes(s@) == trim_slashes(cs@.subrange(i as int, cs@.len() as int)),
        decreases cs@.len() - i,
    {
        let ghost t = cs@.subrange(i as int, cs@.len() as int);
        assert(t.drop_first() =~= cs@.subrange(i + 1, cs@.len() as int));
        i = i + 1;
    }
    proof {
        assert(cs@.subrange(0, cs@.len() as int) =~= cs@);
    }
    let rest = copy_range(cs.as_slice(), i, cs.len());
    string_of(rest.as_slice())
}

/// The debug name of a port protocol.
pub fn protocol_text(p: PortProtocol) -> (r: String)
    ensures
        r@ == protocol_name(p),
{
    match p {
        PortProtocol::Empty => String::from_str("EMPTY"),
        PortProtocol::Tcp => String::from_str("TCP"),
        PortProtocol::Udp => String::from_str("UDP"),
        PortProtocol::Sctp => String::from_str("SCTP"),
    }
}

/// The tray's record of a container that the Engine listed.
pub fn container_from_summary(c: ContainerSummary) -> (r: ContainerInfo)
    requires
        summary_labels_distinct(c),
    ensures
        info_from_summary(c, r),
        distinct_keys(r.labels@),
{
    let ghost orig = c;
    let id = string_or_empty(c.id);
    let id_chars = chars_of(id.as_str());
    let short = take_prefix(id_chars.as_slice(), 12);
    let mut names: Vec<String> = Vec::new();
    match c.names {
        Some(ns) => {
            let mut i: usize = 0;
            while i < ns.len()
                invariant
                    i <= ns@.len(),
                    texts(names@) == texts(ns@).subrange(0, i as int).map_values(
                        |n: Seq<char>| trim_slashes(n),
                    ),
                decreases ns@.len() - i,
            {
                let ghost before = names@;
                let n = strip_slashes(ns[i].as_str());
                names.push(n);
                assert(texts(names@) =~= texts(before).push(n@));
                assert(texts(ns@).subrange(0, i + 1) =~= texts(ns@).subrange(0, i as int).push(ns@[i as int]@));
                assert(texts(names@) =~= texts(ns@).subrange(0, i + 1).map_values(
                    |n: Seq<char>| trim_slashes(n),
                ));
                i = i + 1;
            }
            assert(texts(ns@).subrange(0, ns@.len() as int) =~= texts(ns@));
        },
        None => {
            assert(texts(names@) =~= Seq::<Seq<char>>::empty());
        },
    }
    let mut ports: Vec<PortInfo> = Vec::new();
    match c.ports {
        Some(ps) => {
            let mut i: usize = 0;
            while i < ps.len()
                invariant
                    i <= ps@.len(),
                    ports@.len() == i,
                    forall|k: int| 0 <= k < i ==> port_from_summary(#[trigger] ps@[k], ports@[k]),
                decreases ps@.len() - i,
            {
                let p = &ps[i];
                let port_type = match p.typ {
                    Some(t) => protocol_text(t),
                    None => String::new(),
                };
                ports.push(
                    PortInfo {
                        private_port: p.private_port,
                        public_port: p.public_port,
                        port_type,
                    },
                );
                i = i + 1;
            }
        },
        None => {},
    }
    let labels = match c.labels {
        Some(l) => l,
        None => Vec::new(),
    };
    ContainerInfo {
        id: string_of(short.as_slice()),
        names,
        image: string_or_empty(c.image),
        state: string_or_empty(c.state),
        status: string_or_empty(c.status),
        ports,
        created: match c.created {
            Some(t) => t,
            None => 0,
        },
        labels,
    }
}


/// The containers of `cs` whose compose project is `p` (`None`: no project), in order.
pub open spec fn members(cs: Seq<ContainerInfo>, p: Option<Seq<char>>) -> Seq<ContainerInfo> {
    cs.filter(|c: ContainerInfo| project_of(c) == p)
}

/// The names of a sequence of groups.
pub open spec fn group_names(gs: Seq<ContainerGroup>) -> Seq<Seq<char>> {
    gs.map_values(|g: ContainerGroup| g.name@)
}

/// `gs` are the compose-project groups of `cs`: one per project, in ascending
/// order of name, each holding that project's containers in their order.
pub open spec fn project_groups(cs: Seq<ContainerInfo>, gs: Seq<ContainerGroup>) -> bool {
    &&& forall|a: int, b: int| 0 <= a < b < gs.len() ==> text_lt(#[trigger] gs[a].name@, #[trigger] gs[b].name@)
    &&& forall|a: int| 0 <= a < gs.len() ==> (#[trigger] gs[a]).containers@ == members(cs, Some(gs[a].name@))
    &&& forall|a: int| 0 <= a < gs.len() ==> (#[trigger] gs[a]).containers@.len() > 0
    &&& forall|k: int| 0 <= k < cs.len() && (#[trigger] project_of(cs[k])) is Some
        ==> group_names(gs).contains(project_of(cs[k])->0)
}

/// The name of the group of containers outside any compose project.
pub open spec fn standalone_name() -> Seq<char> {
    "Standalone"@
}

/// `r` is how the tray groups the containers `cs`: the compose projects in
/// ascending order of name, then, if any container belongs to none, a group
/// named "Standalone" holding those.
pub open spec fn grouped(cs: Seq<ContainerInfo>, r: Seq<ContainerGroup>) -> bool {
    let loose = members(cs, None);
    if loose.len() == 0 {
        project_groups(cs, r)
    } else {
        &&& r.len() > 0
        &&& project_groups(cs, r.drop_last())
        &&& r.last().name@ == standalone_name()
        &&& r.last().containers@ == loose
    }
}

proof fn lemma_members_push(cs: Seq<ContainerInfo>, c: ContainerInfo, p: Option<Seq<char>>)
    ensures
        members(cs.push(c), p) == if project_of(c) == p {
            members(cs, p).push(c)
        } else {
            members(cs, p)
        },
{
    let pred = |x: ContainerInfo| project_of(x) == p;
    cs.lemma_filter_push(c, pred);
}

proof fn lemma_members_absent(cs: Seq<ContainerInfo>, p: Seq<char>)
    requires
        forall|k: int| 0 <= k < cs.len() ==> project_of(#[trigger] cs[k]) != Some(p),
    ensures
        members(cs, Some(p)).len() == 0,
{
    let pred = |x: ContainerInfo| project_of(x) == Some(p);
    if members(cs, Some(p)).len() > 0 {
        broadcast use vstd::seq_lib::group_filter_ensures;
        let x = members(cs, Some(p))[0];
        assert(members(cs, Some(p)).contains(x));
        cs.lemma_filter_contains_rev(pred, x);
        assert(cs.contains(x));
        let k = choose|k: int| 0 <= k < cs.len() && cs[k] == x;
        assert(project_of(cs[k]) != Some(p));
    }
}

/// How many containers all the groups hold together.
pub open spec fn listed_total(gs: Seq<ContainerGroup>) -> nat
    decreases gs.len(),
{
    if gs.len() == 0 {
        0
    } else {
        listed_total(gs.drop_last()) + gs.last().containers@.len()
    }
}

/// How many containers of `cs` belong to the projects `names`, summed over them.
pub open spec fn project_total(cs: Seq<ContainerInfo>, names: Seq<Seq<char>>) -> nat
    decreases names.len(),
{
    if names.len() == 0 {
        0
    } else {
        project_total(cs, names.drop_last()) + members(cs, Some(names.last())).len()
    }
}

/// How often `q` occurs in `names`.
pub open spec fn occurrences(names: Seq<Seq<char>>, q: Seq<char>) -> nat
    decreases names.len(),
{
    if names.len() == 0 {
        0
    } else {
        occurrences(names.drop_last(), q) + if names.last() == q {
            1nat
        } else {
            0nat
        }
    }
}

proof fn lemma_occurs_once(names: Seq<Seq<char>>, q: Seq<char>)
    requires
        forall|a: int, b: int| 0 <= a < b < names.len() ==> names[a] != names[b],
    ensures
        names.contains(q) ==> occurrences(names, q) == 1,
        !names.contains(q) ==> occurrences(names, q) == 0,
    decreases names.len(),
{
    if names.len() > 0 {
        let p = names.drop_last();
        assert forall|a: int, b: int| 0 <= a < b < p.len() implies p[a] != p[b] by {
            assert(p[a] == names[a] && p[b] == names[b]);
        }
        lemma_occurs_once(p, q);
        if names.last() == q {
            if p.contains(q) {
                let k = choose|k: int| 0 <= k < p.len() && p[k] == q;
                assert(names[k] == names[names.len() - 1]);
            }
            assert(names.contains(q)) by {
                assert(names[names.len() - 1] == q);
            }
        } else {
            if names.contains(q) {
                let k = choose|k: int| 0 <= k < names.len() && names[k] == q;
                assert(p[k] == q);
            }
            if p.contains(q) {
                let k = choose|k: int| 0 <= k < p.len() && p[k] == q;
                assert(names[k] == q);
            }
        }
    }
}

proof fn lemma_project_total_push(cs: Seq<ContainerInfo>, c: ContainerInfo, names: Seq<Seq<char>>)
    ensures
        project_total(cs.push(c), names) == project_total(cs, names) + match project_of(c) {
            Some(q) => occurrences(names, q),
            None => 0,
        },
    decreases names.len(),
{
    if names.len() > 0 {
        lemma_project_total_push(cs, c, names.drop_last());
        lemma_members_push(cs, c, Some(names.last()));
    }
}

proof fn lemma_project_total_empty(names: Seq<Seq<char>>)
    ensures
        project_total(Seq::<ContainerInfo>::empty(), names) == 0,
    decreases names.len(),
{
    if names.len() > 0 {
        lemma_project_total_empty(names.drop_last());
        assert(members(Seq::<ContainerInfo>::empty(), Some(names.last())) =~= Seq::<ContainerInfo>::empty());
    }
}

/// Distinct project names that cover every project of `cs`, with the
/// containers of no project, count each container of `cs` once.
proof fn lemma_projects_partition(cs: Seq<ContainerInfo>, names: Seq<Seq<char>>)
    requires
        forall|a: int, b: int| 0 <= a < b < names.len() ==> names[a] != names[b],
        forall|k: int| 0 <= k < cs.len() && (#[trigger] project_of(cs[k])) is Some ==> names.contains(project_of(cs[k])->0),
    ensures
        project_total(cs, names) + members(cs, None).len() == cs.len(),
    decreases cs.len(),
{
    if cs.len() == 0 {
        lemma_project_total_empty(names);
        assert(members(cs, None) =~= Seq::<ContainerInfo>::empty());
        assert(cs =~= Seq::<ContainerInfo>::empty());
    } else {
        let p = cs.drop_last();
        let c = cs.last();
        assert forall|k: int| 0 <= k < p.len() && (#[trigger] project_of(p[k])) is Some implies names.contains(
            project_of(p[k])->0,
        ) by {
            assert(p[k] == cs[k]);
        }
        lemma_projects_partition(p, names);
        assert(p.push(c) =~= cs);
        lemma_project_total_push(p, c, names);
        lemma_members_push(p, c, None);
        match project_of(c) {
            Some(q) => {
                assert(project_of(cs[cs.len() - 1]) is Some);
                lemma_occurs_once(names, q);
            },
            None => {},
        }
    }
}

proof fn lemma_listed_total_projects(cs: Seq<ContainerInfo>, gs: Seq<ContainerGroup>)
    requires
        forall|a: int| 0 <= a < gs.len() ==> (#[trigger] gs[a]).containers@ == members(cs, Some(gs[a].name@)),
    ensures
        listed_total(gs) == project_total(cs, group_names(gs)),
    decreases gs.len(),
{
    if gs.len() > 0 {
        let p = gs.drop_last();
        assert forall|a: int| 0 <= a < p.len() implies (#[trigger] p[a]).containers@ == members(cs, Some(p[a].name@)) by {
            assert(p[a] == gs[a]);
        }
        lemma_listed_total_projects(cs, p);
        assert(group_names(gs).drop_last() =~= group_names(p));
        assert(gs.last() == gs[gs.len() - 1]);
    }
}

/// The names of project groups in ascending order are distinct.
proof fn lemma_group_names_distinct(cs: Seq<ContainerInfo>, gs: Seq<ContainerGroup>)
    requires
        project_groups(cs, gs),
    ensures
        forall|a: int, b: int| 0 <= a < b < group_names(gs).len() ==> group_names(gs)[a] != group_names(gs)[b],
{
    assert forall|a: int, b: int| 0 <= a < b < group_names(gs).len() implies group_names(gs)[a] != group_names(gs)[b] by {
        lemma_text_lt_irreflexive(gs[a].name@);
        assert(text_lt(gs[a].name@, gs[b].name@));
    }
}

/// Every container the tray is given is listed exactly once: each group
/// holds exactly the containers of its project (or of none), and together
/// the groups hold as many containers as there were.
pub proof fn lemma_grouping_lists_each_container_once(cs: Seq<ContainerInfo>, r: Seq<ContainerGroup>)
    requires
        grouped(cs, r),
    ensures
        listed_total(r) == cs.len(),
{
    if members(cs, None).len() == 0 {
        lemma_group_names_distinct(cs, r);
        lemma_listed_total_projects(cs, r);
        lemma_projects_partition(cs, group_names(r));
    } else {
        let gs = r.drop_last();
        lemma_group_names_distinct(cs, gs);
        lemma_listed_total_projects(cs, gs);
        lemma_projects_partition(cs, group_names(gs));
    }
}

/// Groups containers by compose project, as the tray lists them.
pub fn group_containers(containers: Vec<ContainerInfo>) -> (r: Vec<ContainerGroup>)
    ensures
        grouped(containers@, r@),
{
    let ghost cs = containers@;
    let mut rest = containers;
    let mut groups: Vec<ContainerGroup> = Vec::new();
    let mut loose: Vec<ContainerInfo> = Vec::new();
    let ghost mut i: int = 0;
    assert(cs.skip(0) =~= cs);
    assert(cs.take(0) =~= Seq::<ContainerInfo>::empty());
    while rest.len() > 0
        invariant
            0 <= i <= cs.len(),
            rest@ == cs.skip(i),
            project_groups(cs.take(i), groups@),
            loose@ == members(cs.take(i), None),
        decreases rest@.len(),
    {
        let c = rest.remove(0);
        let ghost prev = cs.take(i);
        assert(c == cs[i]);
        assert(cs.take(i + 1) =~= prev.push(c));
        assert(rest@ =~= cs.skip(i + 1));
        let ghost old_groups = groups@;
        match extract_compose_project(&c.labels) {
            None => {
                proof {
                    lemma_members_push(prev, c, None);
                    assert forall|a: int| 0 <= a < groups@.len() implies (#[trigger] groups@[a]).containers@
                        == members(prev.push(c), Some(groups@[a].name@)) by {
                        lemma_members_push(prev, c, Some(groups@[a].name@));
                    }
                    assert forall|k: int| 0 <= k < prev.push(c).len() && (#[trigger] project_of(prev.push(c)[k])) is Some
                        implies group_names(groups@).contains(project_of(prev.push(c)[k])->0) by {
                        if k < prev.len() {
                            assert(prev.push(c)[k] == prev[k]);
                        }
                    }
                }
                loose.push(c);
            },
            Some(p) => {
                let mut j: usize = 0;
                while j < groups.len() && !(groups[j].name == p)
                    invariant
                        j <= groups@.len(),
                        groups@ == old_groups,
                        forall|a: int| 0 <= a < j ==> (#[trigger] groups@[a]).name@ != p@,
                    decreases groups@.len() - j,
                {
                    j = j + 1;
                }
                if j < groups.len() {
                    // The project already has a group: append to it.
                    let mut g = groups.remove(j);
                    let ghost gname = g.name@;
                    assert(gname == p@);
                    g.containers.push(c);
                    groups.insert(j, g);
                    proof {
                        assert(groups@ =~= old_groups.update(j as int, g));
                        lemma_members_push(prev, c, Some(p@));
                        lemma_members_push(prev, c, None);
                        assert forall|a: int| 0 <= a < groups@.len() implies (#[trigger] groups@[a]).containers@
                            == members(prev.push(c), Some(groups@[a].name@)) by {
                            lemma_members_push(prev, c, Some(groups@[a].name@));
                            if a != j {
                                assert(groups@[a] == old_groups[a]);
                                assert(old_groups[a].name@ != p@) by {
                                    if a < j {
                                    } else {
                                        assert(text_lt(old_groups[j as int].name@, old_groups[a].name@));
                                        lemma_text_lt_irreflexive(p@);
                                    }
                                }
                            }
                        }
                        assert(group_names(groups@) =~= group_names(old_groups));
                        assert forall|k: int| 0 <= k < prev.push(c).len() && (#[trigger] project_of(prev.push(c)[k])) is Some
                            implies group_names(groups@).contains(project_of(prev.push(c)[k])->0) by {
                            if k < prev.len() {
                                assert(prev.push(c)[k] == prev[k]);
                            } else {
                                assert(group_names(groups@)[j as int] == p@);
                            }
                        }
                        assert forall|a: int, b: int| 0 <= a < b < groups@.len()
                            implies text_lt(#[trigger] groups@[a].name@, #[trigger] groups@[b].name@) by {
                            assert(old_groups[a].name@ == groups@[a].name@);
                            assert(old_groups[b].name@ == groups@[b].name@);
                        }
                    }
                } else {
                    // A new project: insert its group where the order puts it.
                    let mut k: usize = 0;
                    while k < groups.len() && text_less(groups[k].name.as_str(), p.as_str())
                        invariant
                            k <= groups@.len(),
                            groups@ == old_groups,
                            forall|a: int| 0 <= a < k ==> text_lt(#[trigger] groups@[a].name@, p@),
                        decreases groups@.len() - k,
                    {
                        k = k + 1;
                    }
                    let ghost pv = p@;
                    proof {
                        lemma_members_push(prev, c, Some(pv));
                        lemma_members_push(prev, c, None);
                        assert forall|x: int| 0 <= x < prev.len() implies project_of(#[trigger] prev[x]) != Some(pv) by {
                            if project_of(prev[x]) == Some(pv) {
                                assert(group_names(groups@).contains(pv));
                                let a = choose|a: int| 0 <= a < group_names(groups@).len() && group_names(groups@)[a] == pv;
                                assert(groups@[a].name@ == pv);
                            }
                        }
                        lemma_members_absent(prev, pv);
                        assert(members(prev, Some(pv)) =~= Seq::<ContainerInfo>::empty());
                    }
                    let mut first: Vec<ContainerInfo> = Vec::new();
                    first.push(c);
                    let g = ContainerGroup { name: p, containers: first };
                    groups.insert(k, g);
                    proof {
                        let ng = groups@;
                        assert(ng =~= old_groups.insert(k as int, g));
                        assert forall|a: int| k <= a < old_groups.len() implies text_lt(pv, #[trigger] old_groups[a].name@) by {
                            if !text_lt(old_groups[a].name@, pv) {
                                lemma_text_lt_total(old_groups[a].name@, pv);
                            } else {
                                assert(text_lt(old_groups[k as int].name@, old_groups[a].name@) || a == k);
                                if a != k {
                                    lemma_text_lt_transitive(old_groups[k as int].name@, old_groups[a].name@, pv);
                                }
                            }
                        }
                        assert forall|a: int, b: int| 0 <= a < b < ng.len()
                            implies text_lt(#[trigger] ng[a].name@, #[trigger] ng[b].name@) by {
                            if b < k {
                                assert(ng[a] == old_groups[a] && ng[b] == old_groups[b]);
                            } else if b == k {
                                assert(ng[a] == old_groups[a]);
                            } else if a < k {
                                assert(ng[a] == old_groups[a] && ng[b] == old_groups[b - 1]);
                                lemma_text_lt_transitive(ng[a].name@, pv, ng[b].name@);
                            } else if a == k {
                                assert(ng[b] == old_groups[b - 1]);
                            } else {
                                assert(ng[a] == old_groups[a - 1] && ng[b] == old_groups[b - 1]);
                            }
                        }
                        assert forall|a: int| 0 <= a < ng.len() implies (#[trigger] ng[a]).containers@
                            == members(prev.push(c), Some(ng[a].name@)) && ng[a].containers@.len() > 0 by {
                            if a != k {
                                let oa = if a < k { a } else { a - 1 };
                                assert(ng[a] == old_groups[oa]);
                                lemma_members_push(prev, c, Some(ng[a].name@));
                                if ng[a].name@ == pv {
                                    assert(group_names(old_groups)[oa] == pv);
                                }
                            } else {
                                assert(ng[a].containers@ =~= seq![c]);
                            }
                        }
                        assert forall|x: int| 0 <= x < prev.push(c).len() && (#[trigger] project_of(prev.push(c)[x])) is Some
                            implies group_names(ng).contains(project_of(prev.push(c)[x])->0) by {
                            if x < prev.len() {
                                assert(prev.push(c)[x] == prev[x]);
                                let q = project_of(prev[x])->0;
                                let a = choose|a: int| 0 <= a < group_names(old_groups).len() && group_names(old_groups)[a] == q;
                                let na = if a < k { a } else { a + 1 };
                                assert(group_names(ng)[na] == q);
                            } else {
                                assert(group_names(ng)[k as int] == pv);
                            }
                        }
                    }
                }
            },
        }
        proof {
            i = i + 1;
        }
    }
    assert(cs.take(i) =~= cs);
    if loose.len() > 0 {
        let ghost named = groups@;
        groups.push(ContainerGroup { name: String::from_str("Standalone"), containers: loose });
        assert(groups@.drop_last() =~= named);
    }
    groups
}


/// `gs` are the groups the tray shows for the Engine's container list `ss`.
pub open spec fn groups_from_summaries(ss: Seq<ContainerSummary>, gs: Seq<ContainerGroup>) -> bool {
    exists|infos: Seq<ContainerInfo>|
        #![trigger grouped(infos, gs)]
        infos.len() == ss.len() && (forall|i: int| 0 <= i < ss.len() ==> info_from_summary(#[trigger] ss[i], infos[i]))
            && grouped(infos, gs)
}

/// Each group holds containers of the list it was formed from, so labels
/// with distinct keys stay so.
proof fn lemma_grouped_labels(cs: Seq<ContainerInfo>, r: Seq<ContainerGroup>)
    requires
        grouped(cs, r),
        forall|i: int| 0 <= i < cs.len() ==> distinct_keys(#[trigger] cs[i].labels@),
    ensures
        forall|a: int, k: int| 0 <= a < r.len() && 0 <= k < r[a].containers@.len() ==> distinct_keys(
            #[trigger] r[a].containers@[k].labels@,
        ),
{
    broadcast use vstd::seq_lib::group_filter_ensures;
    assert forall|a: int, k: int| 0 <= a < r.len() && 0 <= k < r[a].containers@.len() implies distinct_keys(
        #[trigger] r[a].containers@[k].labels@,
    ) by {
        let x = r[a].containers@[k];
        let loose = members(cs, None);
        let q = if loose.len() > 0 && a == r.len() - 1 {
            None
        } else {
            if loose.len() > 0 {
                assert(r.drop_last()[a] == r[a]);
            }
            Some(r[a].name@)
        };
        assert(r[a].containers@ == members(cs, q));
        let pred = |c: ContainerInfo| project_of(c) == q;
        assert(members(cs, q).contains(x)) by {
            assert(members(cs, q)[k] == x);
        }
        cs.lemma_filter_contains_rev(pred, x);
        let i = choose|i: int| 0 <= i < cs.len() && cs[i] == x;
        assert(distinct_keys(cs[i].labels@));
    }
}

/// The container list of the tray from the Engine's answer: an error passed
/// on as it is, otherwise the containers grouped by compose project.
pub fn list_containers(listed: Result<Vec<ContainerSummary>, String>) -> (r: Result<Vec<ContainerGroup>, String>)
    requires
        match listed {
            Ok(ss) => forall|i: int| 0 <= i < ss@.len() ==> summary_labels_distinct(#[trigger] ss@[i]),
            Err(_) => true,
        },
    ensures
        match listed {
            Err(e) => r matches Err(f) && f@ == e@,
            Ok(ss) => r matches Ok(gs) && groups_from_summaries(ss@, gs@) && forall|a: int, k: int|
                0 <= a < gs@.len() && 0 <= k < gs@[a].containers@.len() ==> distinct_keys(
                    #[trigger] gs@[a].containers@[k].labels@,
                ),
        },
{
    match listed {
        Err(e) => Err(e),
        Ok(ss) => {
            let ghost orig = ss@;
            let mut rest = ss;
            let mut infos: Vec<ContainerInfo> = Vec::new();
            assert(orig.skip(0) =~= orig);
            while rest.len() > 0
                invariant
                    infos@.len() + rest@.len() == orig.len(),
                    rest@ == orig.skip(infos@.len() as int),
                    forall|i: int| 0 <= i < infos@.len() ==> info_from_summary(#[trigger] orig[i], infos@[i]),
                    forall|i: int| 0 <= i < orig.len() ==> summary_labels_distinct(#[trigger] orig[i]),
                    forall|i: int| 0 <= i < infos@.len() ==> distinct_keys(#[trigger] infos@[i].labels@),
                decreases rest@.len(),
            {
                let ghost k = infos@.len() as int;
                let c = rest.remove(0);
                assert(c == orig[k]);
                assert(summary_labels_distinct(orig[k]));
                assert(rest@ =~= orig.skip(k + 1));
                let info = container_from_summary(c);
                infos.push(info);
            }
            let ghost iv = infos@;
            let gs = group_containers(infos);
            assert(grouped(iv, gs@));
            proof {
                lemma_grouped_labels(iv, gs@);
            }
            Ok(gs)
        },
    }
}

/// An image as the Engine's list reports it (the fields the tray reads).
pub struct ImageSummary {
    pub id: String,
    pub repo_tags: Vec<String>,
    pub size: i64,
    pub created: i64,
}

/// `s` without its first `n` characters.
pub open spec fn skip_chars(s: Seq<char>, n: nat) -> Seq<char> {
    if n < s.len() {
        s.subrange(n as int, s.len() as int)
    } else {
        Seq::empty()
    }
}

/// `i` is the tray's record of the Engine's image `s`: the ID without its
/// seven-character digest prefix, cut to twelve characters.
pub open spec fn image_from_summary(s: ImageSummary, i: ImageInfo) -> bool {
    &&& i.id@ == take_chars(skip_chars(s.id@, 7), 12)
    &&& i.repo_tags@ == s.repo_tags@
    &&& i.size == s.size
    &&& i.created == s.created
}

/// The image list of the tray from the Engine's answer.
pub fn list_images(listed: Result<Vec<ImageSummary>, String>) -> (r: Result<Vec<ImageInfo>, String>)
    ensures
        match listed {
            Err(e) => r matches Err(f) && f@ == e@,
            Ok(ss) => r matches Ok(is) && is@.len() == ss@.len() && forall|k: int|
                0 <= k < ss@.len() ==> image_from_summary(#[trigger] ss@[k], is@[k]),
        },
{
    match listed {
        Err(e) => Err(e),
        Ok(ss) => {
            let ghost orig = ss@;
            let mut rest = ss;
            let mut out: Vec<ImageInfo> = Vec::new();
            assert(orig.skip(0) =~= orig);
            while rest.len() > 0
                invariant
                    out@.len() + rest@.len() == orig.len(),
                    rest@ == orig.skip(out@.len() as int),
                    forall|i: int| 0 <= i < out@.len() ==> image_from_summary(#[trigger] orig[i], out@[i]),
                decreases rest@.len(),
            {
                let ghost k = out@.len() as int;
                let img = rest.remove(0);
                assert(img == orig[k]);
                assert(rest@ =~= orig.skip(k + 1));
                let cs = chars_of(img.id.as_str());
                let skipped = if 7 < cs.len() {
                    copy_range(cs.as_slice(), 7, cs.len())
                } else {
                    Vec::new()
                };
                let short = take_prefix(skipped.as_slice(), 12);
                out.push(
                    ImageInfo {
                        id: string_of(short.as_slice()),
                        repo_tags: img.repo_tags,
                        size: img.size,
                        created: img.created,
                    },
                );
            }
            Ok(out)
        },
    }
}

/// A volume as the Engine's list reports it (the fields the tray reads).
pub struct VolumeSummary {
    pub name: String,
    pub driver: String,
    pub mountpoint: String,
    /// The Engine's label map as pairs, each key at most once.
    pub labels: Vec<(String, String)>,
}

/// The volume list of the tray from the Engine's answer; an absent list is empty.
pub fn list_volumes(listed: Result<Option<Vec<VolumeSummary>>, String>) -> (r: Result<Vec<VolumeInfo>, String>)
    requires
        match listed {
            Ok(Some(ss)) => forall|k: int| 0 <= k < ss@.len() ==> distinct_keys(#[trigger] ss@[k].labels@),
            _ => true,
        },
    ensures
        match listed {
            Err(e) => r matches Err(f) && f@ == e@,
            Ok(None) => r matches Ok(vs) && vs@.len() == 0,
            Ok(Some(ss)) => r matches Ok(vs) && vs@.len() == ss@.len() && forall|k: int|
                0 <= k < ss@.len() ==> {
                    &&& (#[trigger] vs@[k]).name == ss@[k].name
                    &&& vs@[k].driver == ss@[k].driver
                    &&& vs@[k].mountpoint == ss@[k].mountpoint
                    &&& vs@[k].labels == ss@[k].labels
                    &&& distinct_keys(vs@[k].labels@)
                },
        },
{
    match listed {
        Err(e) => Err(e),
        Ok(None) => Ok(Vec::new()),
        Ok(Some(ss)) => {
            let ghost orig = ss@;
            let mut rest = ss;
            let mut out: Vec<VolumeInfo> = Vec::new();
            assert(orig.skip(0) =~= orig);
            while rest.len() > 0
                invariant
                    out@.len() + rest@.len() == orig.len(),
                    rest@ == orig.skip(out@.len() as int),
                    forall|k: int| 0 <= k < out@.len() ==> {
                        &&& (#[trigger] out@[k]).name == orig[k].name
                        &&& out@[k].driver == orig[k].driver
                        &&& out@[k].mountpoint == orig[k].mountpoint
                        &&& out@[k].labels == orig[k].labels
                    },
                    forall|k: int| 0 <= k < orig.len() ==> distinct_keys(#[trigger] orig[k].labels@),
                decreases rest@.len(),
            {
                let ghost k = out@.len() as int;
                let v = rest.remove(0);
                assert(v == orig[k]);
                assert(rest@ =~= orig.skip(k + 1));
                out.push(
                    VolumeInfo {
                        name: v.name,
                        driver: v.driver,
                        mountpoint: v.mountpoint,
                        labels: v.labels,
                    },
                );
            }
            Ok(out)
        },
    }
}

/// A network as the Engine's list reports it: the fields the tray reads, and
/// how many containers the network's container map holds.
pub struct NetworkSummary {
    pub id: Option<String>,
    pub name: Option<String>,
    pub driver: Option<String>,
    pub scope: Option<String>,
    pub containers: Option<usize>,
}

/// `n` is the tray's record of the Engine's network `s`.
pub open spec fn network_from_summary(s: NetworkSummary, n: NetworkInfo) -> bool {
    &&& n.id@ == take_chars(text_or_empty(s.id), 12)
    &&& n.name@ == text_or_empty(s.name)
    &&& n.driver@ == text_or_empty(s.driver)
    &&& n.scope@ == text_or_empty(s.scope)
    &&& n.containers == match s.containers {
        Some(c) => c,
        None => 0,
    }
}

/// The network list of the tray from the Engine's answer.
pub fn list_networks(listed: Result<Vec<NetworkSummary>, String>) -> (r: Result<Vec<NetworkInfo>, String>)
    ensures
        match listed {
            Err(e) => r matches Err(f) && f@ == e@,
            Ok(ss) => r matches Ok(ns) && ns@.len() == ss@.len() && forall|k: int|
                0 <= k < ss@.len() ==> network_from_summary(#[trigger] ss@[k], ns@[k]),
        },
{
    match listed {
        Err(e) => Err(e),
        Ok(ss) => {
            let ghost orig = ss@;
            let mut rest = ss;
            let mut out: Vec<NetworkInfo> = Vec::new();
            assert(orig.skip(0) =~= orig);
            while rest.len() > 0
                invariant
                    out@.len() + rest@.len() == orig.len(),
                    rest@ == orig.skip(out@.len() as int),
                    forall|i: int| 0 <= i < out@.len() ==> network_from_summary(#[trigger] orig[i], out@[i]),
                decreases rest@.len(),
            {
                let ghost k = out@.len() as int;
                let n = rest.remove(0);
                assert(n == orig[k]);
                assert(rest@ =~= orig.skip(k + 1));
                let id = string_or_empty(n.id);
                let cs = chars_of(id.as_str());
                let short = take_prefix(cs.as_slice(), 12);
                out.push(
                    NetworkInfo {
                        id: string_of(short.as_slice()),
                        name: string_or_empty(n.name),
                        driver: string_or_empty(n.driver),
                        scope: string_or_empty(n.scope),
                        containers: match n.containers {
                            Some(c) => c,
                            None => 0,
                        },
                    },
                );
            }
            Ok(out)
        },
    }
}


/// The kind of a container mount, as the Engine reports it.
#[derive(Debug, Clone, Copy, PartialEq, Eq, Structural)]
pub enum MountKind {
    Empty,
    Bind,
    Volume,
    Tmpfs,
    Npipe,
    Cluster,
}

/// A container mount as the Engine's inspection reports it (the fields the tray reads).
pub struct MountSummary {
    pub typ: Option<MountKind>,
    pub source: Option<String>,
    pub destination: Option<String>,
    pub mode: Option<String>,
    pub rw: Option<bool>,
}

/// The name of a mount kind: its debug name in lower case.
pub open spec fn mount_kind_text(k: MountKind) -> Seq<char> {
    match k {
        MountKind::Empty => "empty"@,
        MountKind::Bind => "bind"@,
        MountKind::Volume => "volume"@,
        MountKind::Tmpfs => "tmpfs"@,
        MountKind::Npipe => "npipe"@,
        MountKind::Cluster => "cluster"@,
    }
}

/// A mount whose host path the tray can open: a bind mount that is not a
/// socket under /var/run and not under /proc, /sys or /dev.
pub open spec fn host_visible(m: MountView) -> bool {
    &&& m.mount_type == "bind"@
    &&& !starts_with(m.source, "/var/run"@)
    &&& !starts_with(m.source, "/proc"@)
    &&& !starts_with(m.source, "/sys"@)
    &&& !starts_with(m.source, "/dev"@)
}

/// The views of a sequence of mounts.
pub open spec fn mount_views(ms: Seq<MountInfo>) -> Seq<MountView> {
    ms.map_values(|m: MountInfo| m@)
}

/// The tray's record of an Engine mount, if it has a source and the tray shows it.
pub open spec fn mount_from_summary(m: MountSummary) -> Option<MountView> {
    match m.source {
        None => None,
        Some(src) => {
            let v = MountView {
                mount_type: match m.typ {
                    Some(k) => mount_kind_text(k),
                    None => Seq::empty(),
                },
                source: src@,
                destination: text_or_empty(m.destination),
                mode: text_or_empty(m.mode),
                rw: match m.rw {
                    Some(b) => b,
                    None => true,
                },
            };
            if host_visible(v) {
                Some(v)
            } else {
                None
            }
        },
    }
}

/// Whether the tray can open the host side of mount `m`.
pub fn is_host_visible(m: &MountInfo) -> (r: bool)
    ensures
        r == host_visible(m@),
{
    if !(m.mount_type == String::from_str("bind")) {
        return false;
    }
    let src = chars_of(m.source.as_str());
    let var_run = chars_of("/var/run");
    let proc_dir = chars_of("/proc");
    let sys_dir = chars_of("/sys");
    let dev_dir = chars_of("/dev");
    !has_prefix(src.as_slice(), var_run.as_slice()) && !has_prefix(src.as_slice(), proc_dir.as_slice())
        && !has_prefix(src.as_slice(), sys_dir.as_slice()) && !has_prefix(src.as_slice(), dev_dir.as_slice())
}

/// The lower-case debug name of a mount kind.
pub fn mount_kind_name(k: MountKind) -> (r: String)
    ensures
        r@ == mount_kind_text(k),
{
    match k {
        MountKind::Empty => String::from_str("empty"),
        MountKind::Bind => String::from_str("bind"),
        MountKind::Volume => String::from_str("volume"),
        MountKind::Tmpfs => String::from_str("tmpfs"),
        MountKind::Npipe => String::from_str("npipe"),
        MountKind::Cluster => String::from_str("cluster"),
    }
}

/// The mounts of a container that the tray offers: bind mounts with a host
/// path it can open, in the order the Engine lists them.
pub fn get_container_mounts(inspected: Result<Option<Vec<MountSummary>>, String>) -> (r: Result<Vec<MountInfo>, String>)
    ensures
        match inspected {
            Err(e) => r matches Err(f) && f@ == e@,
            Ok(None) => r matches Ok(v) && v@.len() == 0,
            Ok(Some(ms)) => r matches Ok(v) && mount_views(v@) == ms@.filter_map(
                |m: MountSummary| mount_from_summary(m),
            ),
        },
{
    match inspected {
        Err(e) => Err(e),
        Ok(None) => Ok(Vec::new()),
        Ok(Some(ms)) => {
            let ghost orig = ms@;
            let ghost f = |m: MountSummary| mount_from_summary(m);
            let mut rest = ms;
            let mut out: Vec<MountInfo> = Vec::new();
            let ghost mut i: int = 0;
            assert(orig.skip(0) =~= orig);
            assert(orig.take(0).filter_map(f) =~= Seq::<MountView>::empty());
            assert(mount_views(out@) =~= Seq::<MountView>::empty());
            while rest.len() > 0
                invariant
                    0 <= i <= orig.len(),
                    rest@ == orig.skip(i),
                    mount_views(out@) == orig.take(i).filter_map(f),
                    f == (|m: MountSummary| mount_from_summary(m)),
                decreases rest@.len(),
            {
                let m = rest.remove(0);
                assert(m == orig[i]);
                assert(rest@ =~= orig.skip(i + 1));
                proof {
                    orig.lemma_filter_map_take_succ(f, i);
                }
                let ghost before = out@;
                match m.source {
                    None => {
                        assert(f(orig[i]) is None);
                        assert(orig.take(i + 1).filter_map(f) =~= orig.take(i).filter_map(f));
                    },
                    Some(src) => {
                        let info = MountInfo {
                            mount_type: match m.typ {
                                Some(k) => mount_kind_name(k),
                                None => String::new(),
                            },
                            source: src,
                            destination: string_or_empty(m.destination),
                            mode: string_or_empty(m.mode),
                            rw: match m.rw {
                                Some(b) => b,
                                None => true,
                            },
                        };
                        if is_host_visible(&info) {
                            assert(f(orig[i]) == Some(info@));
                            out.push(info);
                            assert(mount_views(out@) =~= mount_views(before).push(info@));
                        } else {
                            assert(f(orig[i]) is None);
                        }
                        assert(orig.take(i + 1).filter_map(f) =~= mount_views(out@));
                    },
                }
                proof {
                    i = i + 1;
                }
            }
            assert(orig.take(i) =~= orig);
            Ok(out)
        },
    }
}

/// The repository and tag an image reference is pulled as: split at the
/// first `':'`, or the whole reference with the tag "latest".
pub open spec fn image_reference(image: Seq<char>) -> (Seq<char>, Seq<char>) {
    match find(image, ":"@) {
        Some(i) => (image.subrange(0, i), image.subrange(i + 1, image.len() as int)),
        None => (image, "latest"@),
    }
}

/// Splits an image reference into repository and tag for pulling.
pub fn pull_image_reference(image: &str) -> (r: (String, String))
    ensures
        (r.0@, r.1@) == image_reference(image@),
{
    let cs = chars_of(image);
    let n = cs.len();
    let colon = chars_of(":");
    match find_chars(cs.as_slice(), colon.as_slice()) {
        Some(i) => {
            proof {
                reveal_strlit(":");
                lemma_find_bounds(cs@, colon@);
            }
            let repo = copy_range(cs.as_slice(), 0, i);
            let tag = copy_range(cs.as_slice(), i + 1, n);
            (string_of(repo.as_slice()), string_of(tag.as_slice()))
        },
        None => (String::from_str(image), String::from_str("latest")),
    }
}

/// Takes one item of a streamed answer: a line is kept, an error ends the stream.
pub fn absorb_chunk(lines: &mut Vec<String>, chunk: Result<String, String>) -> (r: Result<(), String>)
    ensures
        match chunk {
            Ok(s) => r is Ok && final(lines)@ == old(lines)@.push(s),
            Err(e) => r matches Err(f) && f@ == e@ && final(lines)@ == old(lines)@,
        },
{
    match chunk {
        Ok(s) => {
            lines.push(s);
            Ok(())
        },
        Err(e) => Err(e),
    }
}


/// A port publication the Engine is asked for.
#[derive(Debug, PartialEq, Eq)]
pub struct PortBinding {
    pub container_port: String,
    pub host_ip: String,
    pub host_port: String,
}

/// What the Engine is asked to create a container with.
#[derive(Debug, PartialEq, Eq)]
pub struct ContainerConfig {
    pub name: Option<String>,
    pub image: String,
    pub exposed_ports: Vec<String>,
    pub port_bindings: Vec<PortBinding>,
    pub binds: Vec<String>,
    pub env: Vec<String>,
}

/// The largest port number.
pub open spec fn port_max() -> nat {
    65535
}

/// The key a container port is exposed under.
pub open spec fn port_key(m: PortMapping) -> Seq<char> {
    m.container@ + "/tcp"@
}

/// Why a port mapping is refused, if it is: a host or container port that is
/// not a number from 0 to 65535, or either of them 0.
pub open spec fn port_error(m: PortMapping) -> Option<Seq<char>> {
    match parse_bounded(m.host@, port_max()) {
        None => Some("Invalid host port: "@ + m.host@),
        Some(h) => match parse_bounded(m.container@, port_max()) {
            None => Some("Invalid container port: "@ + m.container@),
            Some(c) => if h == 0 || c == 0 {
                Some("Port must be between 1 and 65535"@)
            } else {
                None
            },
        },
    }
}

/// The error of the first refused mapping.
pub open spec fn first_port_error(ms: Seq<PortMapping>) -> Option<Seq<char>>
    decreases ms.len(),
{
    if ms.len() == 0 {
        None
    } else {
        match port_error(ms[0]) {
            Some(e) => Some(e),
            None => first_port_error(ms.drop_first()),
        }
    }
}

/// Host port per exposed container port; a later mapping of the same
/// container port replaces an earlier one.
pub open spec fn bindings_map(ms: Seq<PortMapping>) -> Map<Seq<char>, Seq<char>>
    decreases ms.len(),
{
    if ms.len() == 0 {
        Map::empty()
    } else {
        bindings_map(ms.drop_last()).insert(port_key(ms.last()), ms.last().host@)
    }
}

/// The bind specification of a volume mapping: host path, a colon, container path.
pub open spec fn bind_text(v: VolumeMapping) -> Seq<char> {
    v.host@ + ":"@ + v.container@
}

/// `bs` bind each container port of `m` exactly once, to the host port `m`
/// gives it, on all host addresses.
pub open spec fn bindings_match(bs: Seq<PortBinding>, m: Map<Seq<char>, Seq<char>>) -> bool {
    &&& forall|a: int, b: int| 0 <= a < b < bs.len() ==> (#[trigger] bs[a]).container_port@ != (#[trigger] bs[b]).container_port@
    &&& forall|a: int| 0 <= a < bs.len() ==> {
        &&& m.dom().contains((#[trigger] bs[a]).container_port@)
        &&& m[bs[a].container_port@] == bs[a].host_port@
        &&& bs[a].host_ip@ == "0.0.0.0"@
    }
    &&& forall|k: Seq<char>| #[trigger] m.dom().contains(k) ==> exists|a: int| 0 <= a < bs.len() && (#[trigger] bs[a]).container_port@ == k
}

/// `cfg` is what a valid `input` asks the Engine for.
pub open spec fn config_of(input: CreateContainerInput, cfg: ContainerConfig) -> bool {
    &&& match (input.name, cfg.name) {
        (Some(a), Some(b)) => a@ == b@,
        (None, None) => true,
        _ => false,
    }
    &&& cfg.image@ == input.image@
    &&& bindings_match(cfg.port_bindings@, bindings_map(input.ports@))
    &&& texts(cfg.exposed_ports@) == cfg.port_bindings@.map_values(|b: PortBinding| b.container_port@)
    &&& texts(cfg.binds@) == input.volumes@.map_values(|v: VolumeMapping| bind_text(v))
    &&& texts(cfg.env@) == texts(input.env@)
}

/// Checks one port mapping.
pub fn check_port(m: &PortMapping) -> (r: Result<(), String>)
    ensures
        match r {
            Ok(()) => port_error(*m) is None,
            Err(e) => port_error(*m) == Some(e@),
        },
{
    let host = chars_of(m.host.as_str());
    let container = chars_of(m.container.as_str());
    match parse_unsigned_chars(host.as_slice(), 65535) {
        None => Err(concat("Invalid host port: ", m.host.as_str())),
        Some(h) => match parse_unsigned_chars(container.as_slice(), 65535) {
            None => Err(concat("Invalid container port: ", m.container.as_str())),
            Some(c) => if h == 0 || c == 0 {
                Err(String::from_str("Port must be between 1 and 65535"))
            } else {
                Ok(())
            },
        },
    }
}

proof fn lemma_first_port_error_prefix(ms: Seq<PortMapping>, i: int)
    requires
        0 <= i <= ms.len(),
        forall|k: int| 0 <= k < i ==> port_error(#[trigger] ms[k]) is None,
    ensures
        first_port_error(ms) == first_port_error(ms.skip(i)),
    decreases i,
{
    if i > 0 {
        lemma_first_port_error_prefix(ms.drop_first(), i - 1);
        assert(ms.drop_first().skip(i - 1) =~= ms.skip(i));
    } else {
        assert(ms.skip(0) =~= ms);
    }
}

/// What the Engine is asked for to create the container `input` describes,
/// or the error of its first refused port mapping.
pub fn create_container(input: &CreateContainerInput) -> (r: Result<ContainerConfig, String>)
    ensures
        match first_port_error(input.ports@) {
            Some(e) => r matches Err(f) && f@ == e,
            None => r matches Ok(cfg) && config_of(*input, cfg),
        },
{
    let ports = &input.ports;
    let mut bindings: Vec<PortBinding> = Vec::new();
    let mut exposed: Vec<String> = Vec::new();
    let mut i: usize = 0;
    assert(ports@.take(0) =~= Seq::<PortMapping>::empty());
    while i < ports.len()
        invariant
            i <= ports@.len(),
            ports@ == input.ports@,
            forall|k: int| 0 <= k < i ==> port_error(#[trigger] ports@[k]) is None,
            bindings_match(bindings@, bindings_map(ports@.take(i as int))),
            texts(exposed@) == bindings@.map_values(|b: PortBinding| b.container_port@),
        decreases ports@.len() - i,
    {
        let m = &ports[i];
        match check_port(m) {
            Err(e) => {
                proof {
                    lemma_first_port_error_prefix(ports@, i as int);
                    assert(ports@.skip(i as int)[0] == *m);
                    assert(ports@.skip(i as int).len() > 0);
                    assert(port_error(*m) == Some(e@));
                    assert(first_port_error(ports@.skip(i as int)) == Some(e@));
                    assert(first_port_error(ports@) == Some(e@));
                    assert(ports@ == input.ports@);
                }
                return Err(e);
            },
            Ok(()) => {},
        }
        let key = concat(m.container.as_str(), "/tcp");
        let ghost old_map = bindings_map(ports@.take(i as int));
        let ghost new_map = bindings_map(ports@.take(i + 1));
        assert(ports@.take(i + 1).drop_last() =~= ports@.take(i as int));
        assert(new_map == old_map.insert(key@, m.host@));
        let ghost old_b = bindings@;
        let mut j: usize = 0;
        while j < bindings.len() && !(bindings[j].container_port == key)
            invariant
                j <= bindings@.len(),
                bindings@ == old_b,
                forall|a: int| 0 <= a < j ==> (#[trigger] bindings@[a]).container_port@ != key@,
            decreases bindings@.len() - j,
        {
            j = j + 1;
        }
        if j < bindings.len() {
            let b = PortBinding {
                container_port: key,
                host_ip: String::from_str("0.0.0.0"),
                host_port: m.host.clone(),
            };
            bindings.set(j, b);
            proof {
                assert(bindings@ == old_b.update(j as int, b));
                assert forall|a: int| 0 <= a < bindings@.len() implies (#[trigger] bindings@[a]).container_port@
                    == old_b[a].container_port@ by {}
                assert(bindings@.map_values(|b: PortBinding| b.container_port@) =~= old_b.map_values(
                    |b: PortBinding| b.container_port@,
                ));
                assert forall|k: Seq<char>| #[trigger] new_map.dom().contains(k) implies exists|a: int|
                    0 <= a < bindings@.len() && (#[trigger] bindings@[a]).container_port@ == k by {
                    if k != bindings@[j as int].container_port@ {
                        assert(old_map.dom().contains(k));
                        let a = choose|a: int| 0 <= a < old_b.len() && (#[trigger] old_b[a]).container_port@ == k;
                        assert(bindings@[a].container_port@ == k);
                    }
                }
            }
        } else {
            let b = PortBinding {
                container_port: key.clone(),
                host_ip: String::from_str("0.0.0.0"),
                host_port: m.host.clone(),
            };
            let ghost old_e = exposed@;
            bindings.push(b);
            exposed.push(key);
            proof {
                assert(texts(exposed@) =~= texts(old_e).push(b.container_port@));
                assert(bindings@.map_values(|b: PortBinding| b.container_port@) =~= old_b.map_values(
                    |b: PortBinding| b.container_port@,
                ).push(b.container_port@));
                assert forall|k: Seq<char>| #[trigger] new_map.dom().contains(k) implies exists|a: int|
                    0 <= a < bindings@.len() && (#[trigger] bindings@[a]).container_port@ == k by {
                    if k != key@ {
                        assert(old_map.dom().contains(k));
                        let a = choose|a: int| 0 <= a < old_b.len() && (#[trigger] old_b[a]).container_port@ == k;
                        assert(bindings@[a].container_port@ == k);
                    } else {
                        assert(bindings@[old_b.len() as int].container_port@ == k);
                    }
                }
                assert forall|a: int| 0 <= a < bindings@.len() implies {
                    &&& new_map.dom().contains((#[trigger] bindings@[a]).container_port@)
                    &&& new_map[bindings@[a].container_port@] == bindings@[a].host_port@
                    &&& bindings@[a].host_ip@ == "0.0.0.0"@
                } by {
                    if a < old_b.len() {
                        assert(bindings@[a] == old_b[a]);
                    }
                }
            }
        }
        i = i + 1;
    }
    proof {
        assert(ports@.take(i as int) =~= ports@);
        lemma_first_port_error_prefix(ports@, i as int);
        assert(ports@.skip(i as int).len() == 0);
    }
    let mut binds: Vec<String> = Vec::new();
    let mut k: usize = 0;
    while k < input.volumes.len()
        invariant
            k <= input.volumes@.len(),
            texts(binds@) == input.volumes@.subrange(0, k as int).map_values(|v: VolumeMapping| bind_text(v)),
        decreases input.volumes@.len() - k,
    {
        let v = &input.volumes[k];
        let mut b = concat(v.host.as_str(), ":");
        b.append(v.container.as_str());
        let ghost before = binds@;
        binds.push(b);
        assert(texts(binds@) =~= texts(before).push(b@));
        assert(input.volumes@.subrange(0, k + 1) =~= input.volumes@.subrange(0, k as int).push(*v));
        assert(input.volumes@.subrange(0, k + 1).map_values(|v: VolumeMapping| bind_text(v)) =~= input.volumes@.subrange(
            0,
            k as int,
        ).map_values(|v: VolumeMapping| bind_text(v)).push(bind_text(*v)));
        k = k + 1;
    }
    assert(input.volumes@.subrange(0, k as int) =~= input.volumes@);
    let env = copy_strings(&input.env);
    let name = match &input.name {
        Some(n) => Some(n.clone()),
        None => None,
    };
    Ok(
        ContainerConfig {
            name,
            image: input.image.clone(),
            exposed_ports: exposed,
            port_bindings: bindings,
            binds,
            env,
        },
    )
}

/// What follows the Engine's answer to creating a container.
#[derive(Debug, PartialEq, Eq)]
pub enum CreateStep {
    /// Start the container with this ID, which was just created.
    Start(String),
    /// The answer: the new container's ID, or why it failed.
    Finished(Result<String, String>),
}

/// After the Engine created (or failed to create) the container `input`
/// describes: a failure is the answer; a container to be started at once is
/// started next; otherwise its ID is the answer.
pub fn create_container_created(input: &CreateContainerInput, created: Result<String, String>) -> (r: CreateStep)
    ensures
        match created {
            Err(e) => r matches CreateStep::Finished(Err(f)) && f@ == e@,
            Ok(id) => if input.auto_start {
                r matches CreateStep::Start(s) && s@ == id@
            } else {
                r matches CreateStep::Finished(Ok(s)) && s@ == id@
            },
        },
{
    match created {
        Err(e) => CreateStep::Finished(Err(e)),
        Ok(id) => if input.auto_start {
            CreateStep::Start(id)
        } else {
            CreateStep::Finished(Ok(id))
        },
    }
}

/// After the Engine started the container `id` that was just created: its
/// ID, or why the start failed.
pub fn create_container_started(id: String, started: Result<(), String>) -> (r: Result<String, String>)
    ensures
        match started {
            Ok(()) => r matches Ok(s) && s@ == id@,
            Err(e) => r matches Err(f) && f@ == e@,
        },
{
    match started {
        Ok(()) => Ok(id),
        Err(e) => Err(e),
    }
}

/// A copy of a list of strings.
pub fn copy_strings(v: &Vec<String>) -> (r: Vec<String>)
    ensures
        texts(r@) == texts(v@),
{
    let mut r: Vec<String> = Vec::new();
    let mut i: usize = 0;
    while i < v.len()
        invariant
            i <= v@.len(),
            texts(r@) == texts(v@).subrange(0, i as int),
        decreases v@.len() - i,
    {
        let ghost before = r@;
        let s = v[i].clone();
        assert(s@ == v@[i as int]@);
        r.push(s);
        assert(texts(r@) =~= texts(before).push(s@));
        assert(texts(v@).subrange(0, i + 1) =~= texts(v@).subrange(0, i as int).push(v@[i as int]@));
        assert(texts(r@) =~= texts(v@).subrange(0, i + 1));
        i = i + 1;
    }
    assert(texts(v@).subrange(0, i as int) =~= texts(v@));
    r
}


/// The extension of a path, as `Path::extension` finds it in the file name.
pub uninterp spec fn path_extension_of(path: Seq<char>) -> Option<Seq<char>>;

/// Calls `Path::extension` on `path`: the part of the file name after its
/// last dot, when there is one and the name is not only a leading dot and
/// what follows. The result is named `path_extension_of` of the argument;
/// nothing else is claimed of it.
#[verifier::external_body]
fn path_extension(path: &str) -> (r: Option<String>)
    ensures
        match r {
            Some(e) => path_extension_of(path@) == Some(e@),
            None => path_extension_of(path@) is None,
        },
{
    std::path::Path::new(path).extension().and_then(|e| e.to_str()).map(|e| e.to_string())
}

/// Why a compose file is refused, if it is: it is not a file, or its
/// extension is neither "yml" nor "yaml".
pub open spec fn compose_file_error(file_path: Seq<char>, is_file: bool) -> Option<Seq<char>> {
    if !is_file {
        Some("File not found: "@ + file_path)
    } else if path_extension_of(file_path) == Some("yml"@) || path_extension_of(file_path) == Some("yaml"@) {
        None
    } else {
        Some("File must have .yml or .yaml extension"@)
    }
}

/// Checks a compose file before it is brought up.
pub fn compose_up_check(file_path: &str, is_file: bool) -> (r: Result<(), String>)
    ensures
        match r {
            Ok(()) => compose_file_error(file_path@, is_file) is None,
            Err(e) => compose_file_error(file_path@, is_file) == Some(e@),
        },
{
    if !is_file {
        return Err(concat("File not found: ", file_path));
    }
    match path_extension(file_path) {
        Some(e) => if e == String::from_str("yml") || e == String::from_str("yaml") {
            Ok(())
        } else {
            Err(String::from_str("File must have .yml or .yaml extension"))
        },
        None => Err(String::from_str("File must have .yml or .yaml extension")),
    }
}

/// The arguments of `docker` that bring a compose file up, detached.
pub fn compose_up_args(file_path: &str) -> (r: Vec<String>)
    ensures
        texts(r@) == seq!["compose"@, "-f"@, file_path@, "up"@, "-d"@],
{
    let r = vec![
        String::from_str("compose"),
        String::from_str("-f"),
        String::from_str(file_path),
        String::from_str("up"),
        String::from_str("-d"),
    ];
    assert(texts(r@) =~= seq!["compose"@, "-f"@, file_path@, "up"@, "-d"@]);
    r
}

/// The arguments of `docker-compose`, run when `docker` cannot be launched.
pub fn compose_up_fallback_args(file_path: &str) -> (r: Vec<String>)
    ensures
        texts(r@) == seq!["-f"@, file_path@, "up"@, "-d"@],
{
    let r = vec![
        String::from_str("-f"),
        String::from_str(file_path),
        String::from_str("up"),
        String::from_str("-d"),
    ];
    assert(texts(r@) =~= seq!["-f"@, file_path@, "up"@, "-d"@]);
    r
}

/// The answer to bringing a compose file up: everything it printed, or its
/// error output when it failed.
pub fn compose_up(out: Result<CliOutput, String>) -> (r: Result<String, String>)
    ensures
        match out {
            Err(e) => r matches Err(f) && f@ == e@,
            Ok(o) => if o.success {
                r matches Ok(t) && t@ == o.stdout@ + o.stderr@
            } else {
                r matches Err(f) && f@ == o.stderr@
            },
        },
{
    match out {
        Err(e) => Err(e),
        Ok(o) => if o.success {
            Ok(concat(o.stdout.as_str(), o.stderr.as_str()))
        } else {
            Err(o.stderr)
        },
    }
}

/// The tail of logs asked for: the given one, or the last 100 lines.
pub fn logs_tail(tail: Option<String>) -> (r: String)
    ensures
        r@ == match tail {
            Some(t) => t@,
            None => "100"@,
        },
{
    match tail {
        Some(t) => t,
        None => String::from_str("100"),
    }
}

} // verus!
