//! The file explorer: listing, reading and copying files inside a container
//! through `docker exec` and `docker cp`.

use vstd::prelude::*;
use crate::cli::{concat, texts, CliOutput};
use crate::docker::{valid_container_id, validate_container_id, FileEntry};
use crate::text::{
    chars_of, copy_range, find, find_chars, has_prefix, join, join_range, lemma_find_bounds, lines,
    split_lines, split_words, starts_with, string_of, views, words,
};

verus! {

/// The contents of a `FileEntry`.
pub struct FileView {
    pub name: Seq<char>,
    pub is_dir: bool,
    pub size: Seq<char>,
    pub modified: Seq<char>,
    pub permissions: Seq<char>,
}

impl View for FileEntry {
    type V = FileView;

    open spec fn view(&self) -> FileView {
        FileView {
            name: self.name@,
            is_dir: self.is_dir,
            size: self.size@,
            modified: self.modified@,
            permissions: self.permissions@,
        }
    }
}

/// The views of a sequence of entries.
pub open spec fn entry_views(es: Seq<FileEntry>) -> Seq<FileView> {
    es.map_values(|e: FileEntry| e@)
}

/// A name shown up to a symlink's arrow: the part before the first " -> ".
pub open spec fn display_name(name: Seq<char>) -> Seq<char> {
    match find(name, " -> "@) {
        Some(i) => name.subrange(0, i),
        None => name,
    }
}

/// The entry one line of `ls -la` output describes, if any. GNU `ls` with
/// `--time-style=long-iso` writes permissions, links, owner, group, size,
/// date, time and the name; BusyBox writes month, day and time or year in
/// place of date and time. Lines with too few columns, and the entries "."
/// and "..", describe none.
pub open spec fn ls_entry(line: Seq<char>, gnu: bool) -> Option<FileView> {
    let parts = words(line);
    let first = if gnu { 7int } else { 8int };
    if parts.len() < first + 1 {
        None
    } else {
        let name = join(parts.subrange(first, parts.len() as int), " "@);
        let modified = if gnu {
            parts[5] + " "@ + parts[6]
        } else {
            parts[5] + " "@ + parts[6] + " "@ + parts[7]
        };
        if name == "."@ || name == ".."@ {
            None
        } else {
            Some(
                FileView {
                    name: display_name(name),
                    is_dir: starts_with(parts[0], "d"@),
                    size: parts[4],
                    modified,
                    permissions: parts[0],
                },
            )
        }
    }
}

/// The entries of a directory listing: every line after the first ("total")
/// that describes one.
pub open spec fn ls_entries(stdout: Seq<char>, gnu: bool) -> Seq<FileView> {
    let ls = lines(stdout);
    let body = if ls.len() > 0 {
        ls.drop_first()
    } else {
        ls
    };
    body.filter_map(|l: Seq<char>| ls_entry(l, gnu))
}

/// Appends the characters of `src` to `dst`.
pub fn append_chars(dst: &mut Vec<char>, src: &[char])
    ensures
        final(dst)@ == old(dst)@ + src@,
{
    let ghost d0 = dst@;
    let mut k: usize = 0;
    while k < src.len()
        invariant
            k <= src@.len(),
            dst@ == d0 + src@.subrange(0, k as int),
        decreases src@.len() - k,
    {
        dst.push(src[k]);
        assert(src@.subrange(0, k + 1) =~= src@.subrange(0, k as int).push(src@[k as int]));
        k = k + 1;
    }
    assert(src@.subrange(0, k as int) =~= src@);
}

/// The entry a line of `ls -la` output describes.
pub fn parse_ls_line(line: &[char], gnu: bool) -> (r: Option<FileEntry>)
    ensures
        match r {
            Some(e) => ls_entry(line@, gnu) == Some(e@),
            None => ls_entry(line@, gnu) is None,
        },
{
    let parts = split_words(line);
    let ghost pv = views(parts@);
    let first: usize = if gnu { 7 } else { 8 };
    if parts.len() < first + 1 {
        return None;
    }
    let space = chars_of(" ");
    let name_chars = join_range(&parts, first, parts.len(), space.as_slice());
    assert(pv.subrange(first as int, pv.len() as int) == views(parts@).subrange(first as int, parts@.len() as int));
    let mut modified = parts[5].clone();
    modified.push(' ');
    append_chars(&mut modified, parts[6].as_slice());
    if !gnu {
        modified.push(' ');
        append_chars(&mut modified, parts[7].as_slice());
    }
    proof {
        reveal_strlit(" ");
        assert(pv[5] == parts@[5]@);
        assert(pv[6] == parts@[6]@);
        assert(pv[7] == parts@[7]@);
        if gnu {
            assert(modified@ =~= pv[5] + " "@ + pv[6]);
        } else {
            assert(modified@ =~= pv[5] + " "@ + pv[6] + " "@ + pv[7]);
        }
    }
    let dot = chars_of(".");
    let dotdot = chars_of("..");
    if crate::text::same_chars(name_chars.as_slice(), dot.as_slice())
        || crate::text::same_chars(name_chars.as_slice(), dotdot.as_slice()) {
        return None;
    }
    let arrow = chars_of(" -> ");
    let shown = match find_chars(name_chars.as_slice(), arrow.as_slice()) {
        Some(i) => {
            proof {
                lemma_find_bounds(name_chars@, arrow@);
            }
            copy_range(name_chars.as_slice(), 0, i)
        },
        None => name_chars,
    };
    let d = chars_of("d");
    let is_dir = has_prefix(parts[0].as_slice(), d.as_slice());
    assert(pv[0] == parts@[0]@);
    assert(pv[4] == parts@[4]@);
    Some(
        FileEntry {
            name: string_of(shown.as_slice()),
            is_dir,
            size: string_of(parts[4].as_slice()),
            modified: string_of(modified.as_slice()),
            permissions: string_of(parts[0].as_slice()),
        },
    )
}

/// The entries of a directory listing printed by `ls -la`.
pub fn parse_ls_output(stdout: &str, gnu: bool) -> (r: Vec<FileEntry>)
    ensures
        entry_views(r@) == ls_entries(stdout@, gnu),
{
    let cs = chars_of(stdout);
    let ls = split_lines(cs.as_slice());
    let ghost all = views(ls@);
    let ghost body = if all.len() > 0 {
        all.drop_first()
    } else {
        all
    };
    let ghost f = |l: Seq<char>| ls_entry(l, gnu);
    let mut out: Vec<FileEntry> = Vec::new();
    if ls.len() == 0 {
        assert(body.filter_map(f) =~= Seq::<FileView>::empty());
        assert(entry_views(out@) =~= Seq::<FileView>::empty());
        return out;
    }
    let mut i: usize = 1;
    assert(body.take(0).filter_map(f) =~= Seq::<FileView>::empty());
    assert(entry_views(out@) =~= Seq::<FileView>::empty());
    while i < ls.len()
        invariant
            1 <= i <= ls@.len(),
            all == views(ls@),
            all == lines(stdout@),
            body == all.drop_first(),
            f == (|l: Seq<char>| ls_entry(l, gnu)),
            entry_views(out@) == body.take(i - 1).filter_map(f),
        decreases ls@.len() - i,
    {
        proof {
            body.lemma_filter_map_take_succ(f, i - 1);
            assert(body[i - 1] == ls@[i as int]@);
        }
        let ghost before = out@;
        match parse_ls_line(ls[i].as_slice(), gnu) {
            Some(e) => {
                out.push(e);
                assert(entry_views(out@) =~= entry_views(before).push(e@));
            },
            None => {},
        }
        assert(entry_views(out@) =~= body.take(i as int).filter_map(f));
        i = i + 1;
    }
    assert(body.take(i - 1) =~= body);
    out
}

/// The next step of listing a directory inside a container: a `docker`
/// command to run, or the answer.
#[derive(Debug, PartialEq, Eq)]
pub enum LsStep {
    Run(Vec<String>),
    Finished(Result<Vec<FileEntry>, String>),
}

/// The arguments of `docker` that list `path` inside a container.
pub open spec fn ls_args(container_id: Seq<char>, path: Seq<char>, gnu: bool) -> Seq<Seq<char>> {
    if gnu {
        seq!["exec"@, container_id, "ls"@, "-la"@, "--time-style=long-iso"@, path]
    } else {
        seq!["exec"@, container_id, "ls"@, "-la"@, path]
    }
}

/// Builds the `docker` arguments that list `path` inside a container.
pub fn ls_command(container_id: &str, path: &str, gnu: bool) -> (r: Vec<String>)
    ensures
        texts(r@) == ls_args(container_id@, path@, gnu),
{
    let r = if gnu {
        vec![
            String::from_str("exec"),
            String::from_str(container_id),
            String::from_str("ls"),
            String::from_str("-la"),
            String::from_str("--time-style=long-iso"),
            String::from_str(path),
        ]
    } else {
        vec![
            String::from_str("exec"),
            String::from_str(container_id),
            String::from_str("ls"),
            String::from_str("-la"),
            String::from_str(path),
        ]
    };
    assert(texts(r@) =~= ls_args(container_id@, path@, gnu));
    r
}

/// The first step of listing `path` inside a container: refuse an invalid
/// container ID, else run GNU `ls` with long ISO times.
pub fn list_container_files(container_id: &str, path: &str) -> (r: LsStep)
    ensures
        if valid_container_id(container_id@) {
            r matches LsStep::Run(args) && texts(args@) == ls_args(
            container_id@,
            path@,
            true,
        )
        } else {
            r matches LsStep::Finished(Err(e)) && e@
            == "Invalid container ID"@
        },
{
    match validate_container_id(container_id) {
        Err(e) => LsStep::Finished(Err(e)),
        Ok(()) => LsStep::Run(ls_command(container_id, path, true)),
    }
}

/// The step after GNU `ls` ran: its listing if it succeeded, its launch
/// error, or else a plain `ls` for BusyBox-based images.
pub fn list_container_files_after_gnu(container_id: &str, path: &str, out: Result<CliOutput, String>) -> (r: LsStep)
    ensures
        match out {
            Err(e) => r matches LsStep::Finished(Err(f)) && f@ == e@,
            Ok(o) => if o.success {
                r matches LsStep::Finished(Ok(es)) && entry_views(es@) == ls_entries(o.stdout@, true)
            } else {
                r matches LsStep::Run(args) && texts(args@) == ls_args(container_id@, path@, false)
            },
        },
{
    match out {
        Err(e) => LsStep::Finished(Err(e)),
        Ok(o) => if o.success {
            LsStep::Finished(Ok(parse_ls_output(o.stdout.as_str(), true)))
        } else {
            LsStep::Run(ls_command(container_id, path, false))
        },
    }
}

/// The listing after plain `ls` ran.
pub fn list_container_files_after_plain(out: Result<CliOutput, String>) -> (r: Result<Vec<FileEntry>, String>)
    ensures
        match out {
            Err(e) => r matches Err(f) && f@ == e@,
            Ok(o) => if o.success {
                r matches Ok(es) && entry_views(es@) == ls_entries(o.stdout@, false)
            } else {
                r matches Err(f) && f@ == "Failed to list files: "@ + o.stderr@
            },
        },
{
    match out {
        Err(e) => Err(e),
        Ok(o) => if o.success {
            Ok(parse_ls_output(o.stdout.as_str(), false))
        } else {
            Err(concat("Failed to list files: ", o.stderr.as_str()))
        },
    }
}

/// The answer of a command whose output is the product: its launch error,
/// the given prefix before its error output, or its output.
pub open spec fn output_outcome(out: Result<CliOutput, String>, prefix: Seq<char>) -> Result<Seq<char>, Seq<char>> {
    match out {
        Err(e) => Err(e@),
        Ok(o) => if o.success {
            Ok(o.stdout@)
        } else {
            Err(prefix + o.stderr@)
        },
    }
}

/// The answer of a command whose only product is success: its launch error,
/// the given prefix before its error output, or nothing.
pub open spec fn done_outcome(out: Result<CliOutput, String>, prefix: Seq<char>) -> Result<(), Seq<char>> {
    match out {
        Err(e) => Err(e@),
        Ok(o) => if o.success {
            Ok(())
        } else {
            Err(prefix + o.stderr@)
        },
    }
}

/// Reads a command whose only product is success, prefixing its error output.
pub fn done_result(out: Result<CliOutput, String>, prefix: &str) -> (r: Result<(), String>)
    ensures
        match r {
            Ok(()) => done_outcome(out, prefix@) == Ok::<(), Seq<char>>(()),
            Err(e) => done_outcome(out, prefix@) == Err::<(), Seq<char>>(e@),
        },
{
    match out {
        Err(e) => Err(e),
        Ok(o) => if o.success {
            Ok(())
        } else {
            Err(concat(prefix, o.stderr.as_str()))
        },
    }
}

/// The `docker` arguments that print a file inside a container, once the
/// container ID is checked.
pub fn read_container_file_args(container_id: &str, path: &str) -> (r: Result<Vec<String>, String>)
    ensures
        if valid_container_id(container_id@) {
            r matches Ok(a) && texts(a@) == seq![
            "exec"@,
            container_id@,
            "cat"@,
            path@,
        ]
        } else {
            r matches Err(e) && e@ == "Invalid container ID"@
        },
{
    validate_container_id(container_id)?;
    let a = vec![
        String::from_str("exec"),
        String::from_str(container_id),
        String::from_str("cat"),
        String::from_str(path),
    ];
    assert(texts(a@) =~= seq!["exec"@, container_id@, "cat"@, path@]);
    Ok(a)
}

/// The contents of a file read inside a container.
pub fn read_container_file(out: Result<CliOutput, String>) -> (r: Result<String, String>)
    ensures
        match r {
            Ok(s) => output_outcome(out, "Failed to read file: "@) == Ok::<Seq<char>, Seq<char>>(s@),
            Err(e) => output_outcome(out, "Failed to read file: "@) == Err::<Seq<char>, Seq<char>>(e@),
        },
{
    match out {
        Err(e) => Err(e),
        Ok(o) => if o.success {
            Ok(o.stdout)
        } else {
            Err(concat("Failed to read file: ", o.stderr.as_str()))
        },
    }
}

/// `container_id:path`, how `docker cp` names a path inside a container.
pub open spec fn container_path_text(container_id: Seq<char>, path: Seq<char>) -> Seq<char> {
    container_id + ":"@ + path
}

/// The `docker cp` arguments that copy a path out of a container.
pub fn save_from_container_args(container_id: &str, container_path: &str, host_path: &str) -> (r: Result<Vec<String>, String>)
    ensures
        if valid_container_id(container_id@) {
            r matches Ok(a) && texts(a@) == seq![
            "cp"@,
            container_path_text(container_id@, container_path@),
            host_path@,
        ]
        } else {
            r matches Err(e) && e@ == "Invalid container ID"@
        },
{
    validate_container_id(container_id)?;
    let mut src = concat(container_id, ":");
    src.append(container_path);
    let a = vec![String::from_str("cp"), src, String::from_str(host_path)];
    assert(texts(a@) =~= seq!["cp"@, container_path_text(container_id@, container_path@), host_path@]);
    Ok(a)
}

/// The answer to a copy out of a container.
pub fn save_from_container(out: Result<CliOutput, String>) -> (r: Result<(), String>)
    ensures
        match r {
            Ok(()) => done_outcome(out, "Failed to copy: "@) == Ok::<(), Seq<char>>(()),
            Err(e) => done_outcome(out, "Failed to copy: "@) == Err::<(), Seq<char>>(e@),
        },
{
    done_result(out, "Failed to copy: ")
}

/// The `docker cp` arguments that copy a host path into a container.
pub fn import_to_container_args(container_id: &str, host_path: &str, container_path: &str) -> (r: Result<Vec<String>, String>)
    ensures
        if valid_container_id(container_id@) {
            r matches Ok(a) && texts(a@) == seq![
            "cp"@,
            host_path@,
            container_path_text(container_id@, container_path@),
        ]
        } else {
            r matches Err(e) && e@ == "Invalid container ID"@
        },
{
    validate_container_id(container_id)?;
    let mut dest = concat(container_id, ":");
    dest.append(container_path);
    let a = vec![String::from_str("cp"), String::from_str(host_path), dest];
    assert(texts(a@) =~= seq!["cp"@, host_path@, container_path_text(container_id@, container_path@)]);
    Ok(a)
}

/// The answer to a copy into a container.
pub fn import_to_container(out: Result<CliOutput, String>) -> (r: Result<(), String>)
    ensures
        match r {
            Ok(()) => done_outcome(out, "Failed to import: "@) == Ok::<(), Seq<char>>(()),
            Err(e) => done_outcome(out, "Failed to import: "@) == Err::<(), Seq<char>>(e@),
        },
{
    done_result(out, "Failed to import: ")
}

} // verus!
