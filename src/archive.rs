//! Archives of selected files and directories: which entries go in, under
//! which names, and the builder that writes them.
//!
//! Directories are walked with an explicit work-list rather than recursion:
//! `ArchiveWalk` holds the directories still to be listed, and for each
//! listing it says which files to add and which directories to visit later.

use vstd::prelude::*;
use std::io::Cursor;
use zip::ZipWriter;
use crate::sandbox::{SandboxedPath, is_component};
use crate::listing::is_hidden;
use crate::text::{chars_of, string_of};

verus! {

/// A zip writer over an in-memory buffer. Verus does not take the writer's
/// type with its `Write + Seek` bound, so it is held here, out of sight.
#[verifier::external_body]
pub struct ZipSink {
    writer: ZipWriter<Cursor<Vec<u8>>>,
}

/// The entries of the archive being written, in order: each name with the
/// bytes written to it so far.
pub uninterp spec fn zip_entries(w: ZipSink) -> Seq<(Seq<char>, Seq<u8>)>;

/// Whether the writer has an entry open for data.
pub uninterp spec fn zip_open(w: ZipSink) -> bool;

/// The bytes of the finished archive whose entries are `entries`, each stored
/// with DEFLATE and the writer's fixed default timestamp.
pub uninterp spec fn zip_of(entries: Seq<(Seq<char>, Seq<u8>)>) -> Seq<u8>;

/// The names of a sequence of entries.
pub open spec fn names_of(entries: Seq<(Seq<char>, Seq<u8>)>) -> Seq<Seq<char>> {
    entries.map_values(|e: (Seq<char>, Seq<u8>)| e.0)
}

/// Relies on `zip::ZipWriter::new` over an empty in-memory cursor: no
/// entries, none open.
#[verifier::external_body]
fn zip_new() -> (r: ZipSink)
    ensures
        zip_entries(r) == Seq::<(Seq<char>, Seq<u8>)>::empty(),
        !zip_open(r),
{
    ZipSink { writer: ZipWriter::new(Cursor::new(Vec::new())) }
}

/// Relies on `zip::ZipWriter::start_file` with DEFLATE compression. It first
/// closes any open entry; it then refuses a name already in the archive
/// (writing nothing), and otherwise opens a new empty entry. It panics on a
/// name longer than 65535 bytes, which the `requires` rules out.
#[verifier::external_body]
fn zip_start_file(w: &mut ZipSink, name: &str) -> (r: bool)
    requires
        vstd::utf8::encode_utf8(name@).len() <= 65535,
    ensures
        r == !names_of(zip_entries(*old(w))).contains(name@),
        r ==> zip_entries(*final(w)) == zip_entries(*old(w)).push((name@, Seq::<u8>::empty()))
            && zip_open(*final(w)),
        !r ==> zip_entries(*final(w)) == zip_entries(*old(w)) && !zip_open(*final(w)),
{
    let opts = zip::write::SimpleFileOptions::default().compression_method(
        zip::CompressionMethod::Deflated,
    );
    w.writer.start_file(name, opts).is_ok()
}

/// Relies on `std::io::Write::write_all` on the writer: the bytes go to the
/// open entry. Into an in-memory buffer, and at most `u32::MAX` bytes per
/// entry (beyond that the writer wants the large-file option), it does not
/// fail.
#[verifier::external_body]
fn zip_write_all(w: &mut ZipSink, data: &[u8])
    requires
        zip_open(*old(w)),
        zip_entries(*old(w)).len() > 0,
        zip_entries(*old(w)).last().1.len() == 0,
        data@.len() <= u32::MAX,
    ensures
        zip_open(*final(w)),
        zip_entries(*final(w)) == zip_entries(*old(w)).drop_last().push(
            (zip_entries(*old(w)).last().0, data@),
        ),
{
    let _ = std::io::Write::write_all(&mut w.writer, data);
}

/// Relies on `zip::ZipWriter::finish`: closes the open entry, writes the
/// central directory and hands back the buffer. Its only failures are I/O
/// errors, which an in-memory buffer does not have.
#[verifier::external_body]
fn zip_finish(w: ZipSink) -> (r: Option<Vec<u8>>)
    ensures
        match r {
            Some(b) => b@ == zip_of(zip_entries(w)),
            None => false,
        },
{
    w.writer.finish().ok().map(|c| c.into_inner())
}

/// An archive being built in memory.
pub struct ArchiveBuilder {
    writer: ZipSink,
}

impl ArchiveBuilder {
    /// The entries added so far, in order: names with their contents.
    pub closed spec fn entries(&self) -> Seq<(Seq<char>, Seq<u8>)> {
        zip_entries(self.writer)
    }

    /// The names of the entries added so far, in order.
    pub open spec fn entry_names(&self) -> Seq<Seq<char>> {
        names_of(self.entries())
    }

    /// An empty archive.
    pub fn new() -> (r: ArchiveBuilder)
        ensures
            r.entries() == Seq::<(Seq<char>, Seq<u8>)>::empty(),
    {
        ArchiveBuilder { writer: zip_new() }
    }

    /// Adds one compressed entry named `name` holding `data`. It is refused
    /// (`false`, nothing added) when the name is already in the archive, is
    /// longer than 65535 bytes, or the data exceeds `u32::MAX` bytes.
    pub fn add_file(&mut self, name: &str, data: &[u8]) -> (r: bool)
        ensures
            r == (!old(self).entry_names().contains(name@) && vstd::utf8::encode_utf8(name@).len()
                <= 65535 && data@.len() <= u32::MAX),
            r ==> final(self).entries() == old(self).entries().push((name@, data@)),
            !r ==> final(self).entries() == old(self).entries(),
    {
        if name.as_bytes().len() > 65535 || data.len() > u32::MAX as usize {
            return false;
        }
        if !zip_start_file(&mut self.writer, name) {
            return false;
        }
        zip_write_all(&mut self.writer, data);
        proof {
            let old_e = zip_entries(old(self).writer);
            assert(zip_entries(self.writer) =~= old_e.push((name@, data@)));
        }
        true
    }

    /// The archive's bytes: the zip archive of exactly the entries added.
    pub fn finish(self) -> (r: Option<Vec<u8>>)
        ensures
            r matches Some(b) && b@ == zip_of(self.entries()),
    {
        zip_finish(self.writer)
    }
}

/// What a directory entry turned out to be.
#[derive(Clone, Copy, Debug, PartialEq, Eq, Structural)]
pub enum EntryKind {
    File,
    Directory,
    Other,
}

/// The archive name of `name` inside a directory archived as `prefix`.
pub open spec fn nested_name(prefix: Seq<char>, name: Seq<char>) -> Seq<char> {
    if prefix.len() == 0 {
        name
    } else {
        prefix + seq!['/'] + name
    }
}

/// An entry of a directory listing that the walk takes: shown (not hidden)
/// and a proper single component.
pub open spec fn taken(name: Seq<char>) -> bool {
    !is_hidden(name) && is_component(name)
}

/// The `(location, archive name)` pairs of the entries of kind `kind` that a
/// listing of directory `dir` (archived as `prefix`) contributes, in order.
pub open spec fn walk_items(
    dir: Seq<char>,
    prefix: Seq<char>,
    entries: Seq<(Seq<char>, EntryKind)>,
    kind: EntryKind,
) -> Seq<(Seq<char>, Seq<char>)>
    decreases entries.len(),
{
    if entries.len() == 0 {
        seq![]
    } else {
        let prev = walk_items(dir, prefix, entries.drop_last(), kind);
        let (name, k) = entries.last();
        if taken(name) && k == kind {
            prev.push((dir + seq!['/'] + name, nested_name(prefix, name)))
        } else {
            prev
        }
    }
}

/// A location and the name it takes in the archive.
pub struct WalkItem {
    pub path: SandboxedPath,
    pub name: String,
}

/// A walk item as plain values.
pub open spec fn item_view(i: WalkItem) -> (Seq<char>, Seq<char>) {
    (i.path.path_view(), i.name@)
}

/// The directories still to be listed while archiving a directory tree.
pub struct ArchiveWalk {
    pending: Vec<WalkItem>,
}

impl ArchiveWalk {
    /// The directories still to be listed, the next one last.
    pub closed spec fn pending_view(&self) -> Seq<(Seq<char>, Seq<char>)> {
        self.pending@.map_values(|i: WalkItem| item_view(i))
    }

    /// A walk of the tree at `dir`, whose entries are archived under `prefix`.
    pub fn new(dir: SandboxedPath, prefix: String) -> (r: ArchiveWalk)
        ensures
            r.pending_view() == seq![(dir.path_view(), prefix@)],
    {
        let mut pending: Vec<WalkItem> = Vec::new();
        let ghost v = (dir.path_view(), prefix@);
        pending.push(WalkItem { path: dir, name: prefix });
        let r = ArchiveWalk { pending };
        assert(r.pending_view() =~= seq![v]);
        r
    }

    /// The next directory to list, if any is left.
    pub fn next_dir(&mut self) -> (r: Option<WalkItem>)
        ensures
            old(self).pending_view().len() == 0 ==> r is None && final(self).pending_view()
                == old(self).pending_view(),
            old(self).pending_view().len() > 0 ==> (r matches Some(i) && item_view(i)
                == old(self).pending_view().last() && final(self).pending_view()
                == old(self).pending_view().drop_last()),
    {
        let r = self.pending.pop();
        proof {
            if old(self).pending@.len() > 0 {
                assert(self.pending_view() =~= old(self).pending_view().drop_last());
            }
        }
        r
    }

    /// Takes the listing `entries` of directory `dir` (archived as
    /// `prefix`): hidden entries and names that are not a single component
    /// are skipped, subdirectories are queued, and the files to add are
    /// returned in listing order.
    pub fn visit(&mut self, dir: &SandboxedPath, prefix: &str, entries: &Vec<(String, EntryKind)>) -> (r:
        Vec<WalkItem>)
        ensures
            r@.map_values(|i: WalkItem| item_view(i)) == walk_items(
                dir.path_view(),
                prefix@,
                entries@.map_values(|e: (String, EntryKind)| (e.0@, e.1)),
                EntryKind::File,
            ),
            final(self).pending_view() == old(self).pending_view() + walk_items(
                dir.path_view(),
                prefix@,
                entries@.map_values(|e: (String, EntryKind)| (e.0@, e.1)),
                EntryKind::Directory,
            ),
            forall|k: int| 0 <= k < r@.len() ==> (#[trigger] r@[k]).path.root_view() == dir.root_view(),
    {
        let ghost ev = entries@.map_values(|e: (String, EntryKind)| (e.0@, e.1));
        let ghost start = self.pending_view();
        let pre = chars_of(prefix);
        let mut files: Vec<WalkItem> = Vec::new();
        let mut i: usize = 0;
        while i < entries.len()
            invariant
                i <= entries@.len(),
                pre@ == prefix@,
                ev == entries@.map_values(|e: (String, EntryKind)| (e.0@, e.1)),
                files@.map_values(|i: WalkItem| item_view(i)) == walk_items(
                    dir.path_view(),
                    prefix@,
                    ev.take(i as int),
                    EntryKind::File,
                ),
                self.pending_view() == start + walk_items(
                    dir.path_view(),
                    prefix@,
                    ev.take(i as int),
                    EntryKind::Directory,
                ),
                forall|k: int| 0 <= k < files@.len() ==> (#[trigger] files@[k]).path.root_view() == dir.root_view(),
            decreases entries@.len() - i,
        {
            assert(ev.take(i + 1).drop_last() =~= ev.take(i as int));
            let name = &entries[i].0;
            let kind = entries[i].1;
            let nc = chars_of(name.as_str());
            let hidden = nc.len() > 0 && nc[0] == '.';
            if !hidden && kind != EntryKind::Other {
                if let Some(path) = dir.child(name.as_str()) {
                    let mut arc = pre.clone();
                    if arc.len() > 0 {
                        arc.push('/');
                    }
                    let mut nm = chars_of(name.as_str());
                    arc.append(&mut nm);
                    let ghost want = nested_name(prefix@, name@);
                    assert(arc@ =~= want);
                    let item = WalkItem { path, name: string_of(&arc) };
                    if kind == EntryKind::File {
                        let ghost fv = files@.map_values(|i: WalkItem| item_view(i));
                        files.push(item);
                        assert(files@.map_values(|i: WalkItem| item_view(i)) =~= fv.push(
                            (dir.path_view() + seq!['/'] + name@, want),
                        ));
                    } else {
                        let ghost pv = self.pending_view();
                        self.pending.push(item);
                        assert(self.pending_view() =~= pv.push(
                            (dir.path_view() + seq!['/'] + name@, want),
                        ));
                    }
                }
            }
            i = i + 1;
        }
        assert(ev.take(i as int) =~= ev);
        files
    }
}

/// The last component of a location: what an archived selection is named.
pub open spec fn last_component(p: Seq<char>) -> Seq<char>
    decreases p.len(),
{
    if p.len() == 0 || p.last() == '/' {
        seq![]
    } else {
        last_component(p.drop_last()).push(p.last())
    }
}

/// The name that a selected location takes at the top of the archive.
pub fn selection_name(target: &SandboxedPath) -> (r: String)
    ensures
        r@ == last_component(target.path_view()),
{
    let p = chars_of(target.path().as_str());
    let n = p.len();
    let mut j = n;
    assert(p@.take(n as int) =~= p@);
    assert(p@.subrange(n as int, n as int) =~= Seq::<char>::empty());
    while j > 0 && p[j - 1] != '/'
        invariant
            j <= n == p@.len(),
            last_component(p@) == last_component(p@.take(j as int)) + p@.subrange(j as int, n as int),
        decreases j,
    {
        assert(p@.take(j as int).drop_last() =~= p@.take(j - 1));
        assert(p@.subrange(j - 1, n as int) =~= seq![p@[j - 1]] + p@.subrange(j as int, n as int));
        j = j - 1;
    }
    string_of(&crate::text::copy_chars(&p, j, n))
}

} // verus!
