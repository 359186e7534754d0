//! Building the archive: which of the source files go in, under which names,
//! in which order, and the stream that results.
//!
//! A source that is missing or a directory is left out and reported as
//! skipped; the build goes on without it. A regular file that cannot be
//! given a name in the archive fails the whole build: its path has no base
//! name, or the base name holds a NUL, which no entry can carry.

use vstd::prelude::*;
use crate::text::chars_of;
use crate::writer::{
    append_accepted, archive_image, finish_accepted, writer_entries, writer_level, ArchiveWriter,
};

verus! {

/// The permission bits that every entry is stored with.
pub const ENTRY_MODE: u32 = 0o644;

/// The gzip compression level of every archive.
pub const GZIP_LEVEL: u32 = 6;

/// What was found at a source path.
#[derive(Debug)]
pub enum Probe {
    /// Nothing is there.
    Missing,
    /// A directory is there.
    Directory,
    /// A regular file is there, with these contents.
    File(Vec<u8>),
}

/// One source path and what was found at it.
#[derive(Debug)]
pub struct SourceFile {
    pub path: String,
    pub probe: Probe,
}

/// A finished archive.
#[derive(Debug)]
pub struct Archive {
    /// The compressed stream.
    pub bytes: Vec<u8>,
    /// The positions, in the source list, of the sources that were left out.
    pub skipped: Vec<usize>,
}

/// Why no archive was built.
#[derive(Debug)]
pub enum ArchiveError {
    /// The source at `index` is a regular file that cannot be given a name
    /// in the archive.
    InvalidSource { index: usize },
    /// The archive writer did not take the entries, or could not be finished.
    Writer(std::io::Error),
}

/// The position behind the last `/` of `p`, or 0 where `p` holds none.
pub open spec fn name_start(p: Seq<char>) -> int
    decreases p.len(),
{
    if p.len() == 0 {
        0
    } else if p.last() == '/' {
        p.len() as int
    } else {
        name_start(p.drop_last())
    }
}

/// The base name of the path `p`: its last component, where empty components
/// and `.` do not count. A path without components, or whose last one is
/// `..`, has none.
pub open spec fn base_name(p: Seq<char>) -> Option<Seq<char>>
    decreases p.len(),
{
    if p.len() == 0 {
        None
    } else if p.last() == '/' {
        base_name(p.drop_last())
    } else {
        let name = p.skip(name_start(p));
        if name == seq!['.'] {
            base_name(p.drop_last())
        } else if name == seq!['.', '.'] {
            None
        } else {
            Some(name)
        }
    }
}

/// No character of `name` is a NUL.
pub open spec fn is_storable(name: Seq<char>) -> bool {
    forall|i: int| 0 <= i < name.len() ==> name[i] != '\0'
}

/// The name under which the file at path `p` is stored: its base name, where
/// it has one that holds no NUL.
pub open spec fn entry_name(p: Seq<char>) -> Option<Seq<char>> {
    match base_name(p) {
        Some(name) => if is_storable(name) {
            Some(name)
        } else {
            None
        },
        None => None,
    }
}

/// `src` is a regular file that cannot be given a name in the archive.
pub open spec fn is_unnamed_file(src: SourceFile) -> bool {
    src.probe is File && entry_name(src.path@) is None
}

/// No source of the list is an unnamed file.
pub open spec fn all_named(sources: Seq<SourceFile>) -> bool {
    forall|i: int| 0 <= i < sources.len() ==> !is_unnamed_file(#[trigger] sources[i])
}

/// `index` is the first position of an unnamed file in the list.
pub open spec fn is_first_unnamed(sources: Seq<SourceFile>, index: int) -> bool {
    &&& 0 <= index < sources.len()
    &&& is_unnamed_file(sources[index])
    &&& forall|j: int| 0 <= j < index ==> !is_unnamed_file(#[trigger] sources[j])
}

/// The entries of the archive for `sources`: one for each regular file, in
/// the order of the list, under its entry name.
pub open spec fn planned_entries(sources: Seq<SourceFile>) -> Seq<(Seq<char>, u32, Seq<u8>)>
    decreases sources.len(),
{
    if sources.len() == 0 {
        Seq::empty()
    } else {
        let before = planned_entries(sources.drop_last());
        match (sources.last().probe, entry_name(sources.last().path@)) {
            (Probe::File(data), Some(name)) => before.push((name, ENTRY_MODE, data@)),
            _ => before,
        }
    }
}

/// The positions of the sources that are not regular files, in order.
pub open spec fn skipped_indices(sources: Seq<SourceFile>) -> Seq<usize>
    decreases sources.len(),
{
    if sources.len() == 0 {
        Seq::empty()
    } else {
        let before = skipped_indices(sources.drop_last());
        if sources.last().probe is File {
            before
        } else {
            before.push((sources.len() - 1) as usize)
        }
    }
}

/// Where the last component of a path starts: no `/` stands at or behind
/// that position, and one stands right before it unless it is 0.
pub proof fn lemma_name_start(p: Seq<char>)
    ensures
        0 <= name_start(p) <= p.len(),
        forall|i: int| name_start(p) <= i < p.len() ==> p[i] != '/',
        name_start(p) > 0 ==> p[name_start(p) - 1] == '/',
    decreases p.len(),
{
    if p.len() > 0 && p.last() != '/' {
        let front = p.drop_last();
        lemma_name_start(front);
        assert forall|i: int| name_start(p) <= i < p.len() implies p[i] != '/' by {
            if i < front.len() {
                assert(p[i] == front[i]);
            }
        }
        if name_start(p) > 0 {
            assert(p[name_start(p) - 1] == front[name_start(p) - 1]);
        }
    }
}

/// The entries planned for the first `k` sources are the first of the
/// entries planned for all of them.
pub proof fn lemma_planned_prefix(sources: Seq<SourceFile>, k: int)
    requires
        0 <= k <= sources.len(),
    ensures
        planned_entries(sources.take(k)).len() <= planned_entries(sources).len(),
        planned_entries(sources.take(k)) == planned_entries(sources).take(
            planned_entries(sources.take(k)).len() as int,
        ),
    decreases sources.len() - k,
{
    let all = planned_entries(sources);
    if k == sources.len() {
        assert(sources.take(k) =~= sources);
        assert(all.take(all.len() as int) =~= all);
    } else {
        lemma_planned_prefix(sources, k + 1);
        let shorter = planned_entries(sources.take(k));
        let longer = planned_entries(sources.take(k + 1));
        assert(sources.take(k + 1).drop_last() =~= sources.take(k));
        assert(shorter =~= longer.take(shorter.len() as int));
        assert(shorter =~= all.take(shorter.len() as int));
    }
}

/// Entries that were all taken stay taken when one more is taken behind
/// them.
pub proof fn lemma_appends_extend(
    level: u32,
    entries: Seq<(Seq<char>, u32, Seq<u8>)>,
    entry: (Seq<char>, u32, Seq<u8>),
)
    requires
        appends_accepted(level, entries),
        append_accepted(level, entries, entry.0, entry.1, entry.2),
    ensures
        appends_accepted(level, entries.push(entry)),
{
    let longer = entries.push(entry);
    assert forall|i: int| 0 <= i < longer.len() implies append_accepted(
        level,
        longer.take(i),
        (#[trigger] longer[i]).0,
        longer[i].1,
        longer[i].2,
    ) by {
        if i < entries.len() {
            assert(longer.take(i) =~= entries.take(i));
            assert(longer[i] == entries[i]);
        } else {
            assert(longer.take(i) =~= entries);
        }
    }
}

/// A base name is one component of a path: it is not empty, holds no `/`,
/// and is neither `.` nor `..`.
pub proof fn lemma_base_name_is_component(p: Seq<char>)
    ensures
        base_name(p) matches Some(name) ==> {
            &&& name.len() > 0
            &&& forall|i: int| 0 <= i < name.len() ==> name[i] != '/'
            &&& name != seq!['.']
            &&& name != seq!['.', '.']
        },
    decreases p.len(),
{
    if p.len() > 0 {
        lemma_base_name_is_component(p.drop_last());
        if p.last() != '/' {
            lemma_name_start(p);
        }
    }
}

/// The contents found at `src`; nothing where it is not a regular file.
pub open spec fn contents(src: SourceFile) -> Seq<u8> {
    match src.probe {
        Probe::File(data) => data@,
        _ => Seq::empty(),
    }
}

/// Every entry of `entries` is taken by a writer at `level` that holds the
/// entries before it.
pub open spec fn appends_accepted(level: u32, entries: Seq<(Seq<char>, u32, Seq<u8>)>) -> bool {
    forall|i: int|
        0 <= i < entries.len() ==> append_accepted(
            level,
            entries.take(i),
            (#[trigger] entries[i]).0,
            entries[i].1,
            entries[i].2,
        )
}

/// A writer at `level` takes `entries` one after the other and can then be
/// finished: the stream of `entries` gets written.
pub open spec fn stream_written(level: u32, entries: Seq<(Seq<char>, u32, Seq<u8>)>) -> bool {
    appends_accepted(level, entries) && finish_accepted(level, entries)
}

/// `archive` is the archive of `sources`: its bytes are the stream of the
/// planned entries, and it reports the sources that were left out.
pub open spec fn is_archive_of(sources: Seq<SourceFile>, archive: Archive) -> bool {
    &&& archive.bytes@ == archive_image(GZIP_LEVEL, planned_entries(sources))
    &&& archive.skipped@ == skipped_indices(sources)
}

/// Every source is either stored or skipped, never both and never twice: the
/// entries and the skipped positions together are as many as the sources,
/// and the skipped positions rise and point at sources that are not regular
/// files.
pub proof fn lemma_sources_accounted(sources: Seq<SourceFile>)
    requires
        all_named(sources),
        sources.len() <= usize::MAX,
    ensures
        planned_entries(sources).len() + skipped_indices(sources).len() == sources.len(),
        forall|k: int|
            0 <= k < skipped_indices(sources).len() ==> {
                &&& (#[trigger] skipped_indices(sources)[k]) < sources.len()
                &&& !(sources[skipped_indices(sources)[k] as int].probe is File)
            },
        forall|j: int, k: int|
            0 <= j < k < skipped_indices(sources).len() ==> skipped_indices(sources)[j]
                < skipped_indices(sources)[k],
    decreases sources.len(),
{
    if sources.len() > 0 {
        let front = sources.drop_last();
        assert forall|i: int| 0 <= i < front.len() implies !is_unnamed_file(
            #[trigger] front[i],
        ) by {
            assert(front[i] == sources[i]);
        }
        lemma_sources_accounted(front);
        assert(!is_unnamed_file(sources[sources.len() - 1]));
        assert forall|k: int| 0 <= k < skipped_indices(front).len() implies !(
        sources[(#[trigger] skipped_indices(front)[k]) as int].probe is File) by {
            assert(front[skipped_indices(front)[k] as int] == sources[skipped_indices(
                front,
            )[k] as int]);
        }
    }
}

/// Where every source is a regular file with an entry name, the archive
/// holds one entry for each, at the same position, under that name and with
/// the same contents.
pub proof fn lemma_files_stored_in_place(sources: Seq<SourceFile>)
    requires
        forall|i: int|
            0 <= i < sources.len() ==> (#[trigger] sources[i]).probe is File && entry_name(
                sources[i].path@,
            ) is Some,
    ensures
        planned_entries(sources).len() == sources.len(),
        forall|i: int|
            0 <= i < sources.len() ==> #[trigger] planned_entries(sources)[i] == (
                entry_name(sources[i].path@)->0,
                ENTRY_MODE,
                contents(sources[i]),
            ),
    decreases sources.len(),
{
    if sources.len() > 0 {
        let front = sources.drop_last();
        assert forall|i: int| 0 <= i < front.len() implies (#[trigger] front[i]).probe is File
            && entry_name(front[i].path@) is Some by {
            assert(front[i] == sources[i]);
        }
        lemma_files_stored_in_place(front);
        let last = sources.last();
        assert(last == sources[sources.len() - 1]);
        assert forall|i: int| 0 <= i < sources.len() implies #[trigger] planned_entries(
            sources,
        )[i] == (entry_name(sources[i].path@)->0, ENTRY_MODE, contents(sources[i])) by {
            if i < front.len() {
                assert(front[i] == sources[i]);
                assert(planned_entries(sources)[i] == planned_entries(front)[i]);
            }
        }
    }
}

/// Two archives of the same sources hold the same bytes and report the same
/// sources as skipped.
pub proof fn lemma_same_sources_same_archive(
    sources: Seq<SourceFile>,
    first: Archive,
    second: Archive,
)
    requires
        is_archive_of(sources, first),
        is_archive_of(sources, second),
    ensures
        first.bytes@ == second.bytes@,
        first.skipped@ == second.skipped@,
{
}

/// The base name of `path`, if it has one.
pub fn base_name_of(path: &str) -> (name: Option<String>)
    ensures
        match name {
            Some(n) => base_name(path@) == Some(n@),
            None => base_name(path@) is None,
        },
{
    let text = chars_of(path);
    let mut end: usize = text.len();
    assert(text@.take(end as int) =~= path@);
    loop
        invariant
            text@ == path@,
            end <= text@.len(),
            base_name(path@) == base_name(text@.take(end as int)),
        decreases end,
    {
        if end == 0 {
            return None;
        }
        let ghost p = text@.take(end as int);
        if text[end - 1] == '/' {
            assert(p.drop_last() =~= text@.take(end - 1));
            end = end - 1;
            continue;
        }
        let mut at: usize = end;
        while at > 0 && text[at - 1] != '/'
            invariant
                at <= end <= text@.len(),
                end > 0,
                p == text@.take(end as int),
                p.last() != '/',
                name_start(p) == name_start(text@.take(at as int)),
                at == end ==> p == text@.take(at as int),
            decreases at,
        {
            proof {
                let q = text@.take(at as int);
                assert(q.drop_last() =~= text@.take(at - 1));
                if at == end {
                    assert(q.last() != '/');
                } else {
                    assert(q.last() == text@[at - 1]);
                }
            }
            at = at - 1;
        }
        proof {
            let q = text@.take(at as int);
            if at > 0 {
                assert(q.last() == '/');
                assert(at < end);
            }
            assert(name_start(p) == at);
            assert(p.skip(at as int) =~= text@.subrange(at as int, end as int));
        }
        let ghost name = text@.subrange(at as int, end as int);
        if end - at == 1 && text[at] == '.' {
            assert(name =~= seq!['.']);
            assert(p.drop_last() =~= text@.take(end - 1));
            end = end - 1;
            continue;
        }
        if end - at == 2 && text[at] == '.' && text[at + 1] == '.' {
            assert(name =~= seq!['.', '.']);
            return None;
        }
        proof {
            if name == seq!['.'] {
                assert(name.len() == 1);
                assert(name[0] == '.');
            }
            if name == seq!['.', '.'] {
                assert(name.len() == 2);
                assert(name[0] == '.');
                assert(name[1] == '.');
            }
        }
        let found = path.substring_char(at, end);
        return Some(found.to_owned());
    }
}

/// Whether `name` holds no NUL.
fn holds_no_nul(name: &str) -> (ok: bool)
    ensures
        ok == is_storable(name@),
{
    let text = chars_of(name);
    let mut i: usize = 0;
    while i < text.len()
        invariant
            text@ == name@,
            i <= text@.len(),
            forall|j: int| 0 <= j < i ==> text@[j] != '\0',
        decreases text@.len() - i,
    {
        if text[i] == '\0' {
            return false;
        }
        i = i + 1;
    }
    true
}

/// The name under which the file at `path` is stored, if it can be given
/// one.
pub fn entry_name_of(path: &str) -> (name: Option<String>)
    ensures
        match name {
            Some(n) => entry_name(path@) == Some(n@),
            None => entry_name(path@) is None,
        },
{
    match base_name_of(path) {
        Some(name) => if holds_no_nul(name.as_str()) {
            Some(name)
        } else {
            None
        },
        None => None,
    }
}

/// The position of the first regular file that cannot be given a name in the
/// archive.
pub fn first_unnamed(sources: &Vec<SourceFile>) -> (found: Option<usize>)
    ensures
        match found {
            Some(index) => is_first_unnamed(sources@, index as int),
            None => all_named(sources@),
        },
{
    let mut i: usize = 0;
    while i < sources.len()
        invariant
            i <= sources@.len(),
            forall|j: int| 0 <= j < i ==> !is_unnamed_file(#[trigger] sources@[j]),
        decreases sources@.len() - i,
    {
        if let Probe::File(_) = &sources[i].probe {
            if entry_name_of(sources[i].path.as_str()).is_none() {
                return Some(i);
            }
        }
        i = i + 1;
    }
    None
}

/// Builds the archive of `sources`.
///
/// The source list is checked as a whole before anything is written: where a
/// regular file cannot be given a name, the build fails and names the first
/// such source. Otherwise every regular file is handed to the writer under
/// its entry name, in the order of the list, and the sources that are missing
/// or directories are reported as skipped. The build succeeds exactly where
/// the writer takes every entry and can be finished. The stream is a function
/// of the entries alone, so the same sources give the same bytes.
pub fn build_archive(sources: &Vec<SourceFile>) -> (r: Result<Archive, ArchiveError>)
    ensures
        r is Ok <==> all_named(sources@) && stream_written(
            GZIP_LEVEL,
            planned_entries(sources@),
        ),
        match r {
            Ok(archive) => is_archive_of(sources@, archive),
            Err(ArchiveError::InvalidSource { index }) => is_first_unnamed(sources@, index as int),
            Err(ArchiveError::Writer(_)) => all_named(sources@),
        },
{
    if let Some(index) = first_unnamed(sources) {
        return Err(ArchiveError::InvalidSource { index });
    }
    let ghost all = planned_entries(sources@);
    let mut writer = ArchiveWriter::open(GZIP_LEVEL);
    let mut skipped: Vec<usize> = Vec::new();
    let mut i: usize = 0;
    assert(sources@.take(0) =~= Seq::<SourceFile>::empty());
    while i < sources.len()
        invariant
            i <= sources@.len(),
            all_named(sources@),
            all == planned_entries(sources@),
            writer_level(writer) == GZIP_LEVEL,
            writer_entries(writer) == planned_entries(sources@.take(i as int)),
            appends_accepted(GZIP_LEVEL, writer_entries(writer)),
            skipped@ == skipped_indices(sources@.take(i as int)),
        decreases sources@.len() - i,
    {
        let ghost held = writer_entries(writer);
        proof {
            let upto = sources@.take(i + 1);
            assert(upto.drop_last() =~= sources@.take(i as int));
            assert(upto.last() == sources@[i as int]);
            assert(!is_unnamed_file(sources@[i as int]));
            lemma_planned_prefix(sources@, i + 1);
        }
        match &sources[i].probe {
            Probe::File(data) => {
                // Every regular file has an entry name here: the list was checked above.
                let name = match entry_name_of(sources[i].path.as_str()) {
                    Some(name) => name,
                    None => {
                        return Err(ArchiveError::InvalidSource { index: i });
                    },
                };
                let ghost entry = (name@, ENTRY_MODE, data@);
                proof {
                    let next = planned_entries(sources@.take(i + 1));
                    assert(next == held.push(entry));
                    assert(next == all.take(next.len() as int));
                    assert(all[held.len() as int] == next[held.len() as int]);
                    assert(all.take(held.len() as int) =~= held);
                }
                match writer.append(name.as_str(), ENTRY_MODE, data) {
                    Ok(()) => {
                        proof {
                            lemma_appends_extend(GZIP_LEVEL, held, entry);
                        }
                    },
                    Err(e) => {
                        return Err(ArchiveError::Writer(e));
                    },
                }
            },
            _ => {
                skipped.push(i);
            },
        }
        i = i + 1;
    }
    assert(sources@.take(i as int) =~= sources@);
    match writer.finish() {
        Ok(bytes) => Ok(Archive { bytes, skipped }),
        Err(e) => Err(ArchiveError::Writer(e)),
    }
}

} // verus!
