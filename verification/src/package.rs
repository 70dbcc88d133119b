//! A package as the record of one pass over its archive, and the outputs that the pass yields.
//!
//! A [`Package`] holds the raw entries in the order of the archive. Its [`PackageEntries`]
//! go through them once, from the first to the last, and hand out one item with each call of
//! [`PackageEntries::next`]: an asset or its metadata under its final path, or the failure of
//! one entry. What the calls hand out, one after the other, is the [`trace`] of the archive.

use crate::member::Part;
use crate::reassembly::{
    demand_spec, ready_view, released, resolve_ready, resolve_spec, resolved_name, store_spec,
    Demand, DemandView, Reassembler, ReassemblerView,
};
use crate::state::{status_of, StatusView};
use vstd::prelude::*;
use vstd::slice::slice_to_vec;
use vstd::utf8::{decode_utf8, valid_utf8};

verus! {

/// What a pass meets at one place of the archive.
#[derive(Debug)]
pub enum RawEntry {
    /// A header that could not be decoded.
    Broken,
    /// An entry: whether it is a regular file, its path (`None` where the path could not be
    /// decoded), and its content.
    Entry { is_file: bool, path: Option<Vec<u8>>, content: Vec<u8> },
}

/// The mathematical value of a [`RawEntry`].
pub enum RawEntryView {
    Broken,
    Entry { is_file: bool, path: Option<Seq<u8>>, content: Seq<u8> },
}

impl View for RawEntry {
    type V = RawEntryView;

    open spec fn view(&self) -> RawEntryView {
        match self {
            RawEntry::Broken => RawEntryView::Broken,
            RawEntry::Entry { is_file, path, content } => RawEntryView::Entry {
                is_file: *is_file,
                path: match path {
                    Some(p) => Some(p@),
                    None => None,
                },
                content: content@,
            },
        }
    }
}

/// The views of the raw entries in `entries`.
pub open spec fn archive_of(entries: Seq<RawEntry>) -> Seq<RawEntryView> {
    entries.map_values(|entry: RawEntry| entry@)
}

/// The content of an output.
#[derive(Debug)]
pub enum PackageEntryContent {
    /// A content that was kept until the path of its identifier became known.
    Buffer(Vec<u8>),
    /// The content of an entry that arrived when the path of its identifier was known.
    Direct(Vec<u8>),
}

/// The mathematical value of a [`PackageEntryContent`].
pub enum ContentView {
    Buffer(Seq<u8>),
    Direct(Seq<u8>),
}

impl ContentView {
    /// The bytes of the content, whichever way it took.
    pub open spec fn bytes(self) -> Seq<u8> {
        match self {
            ContentView::Buffer(bytes) => bytes,
            ContentView::Direct(bytes) => bytes,
        }
    }
}

impl View for PackageEntryContent {
    type V = ContentView;

    open spec fn view(&self) -> ContentView {
        match self {
            PackageEntryContent::Buffer(bytes) => ContentView::Buffer(bytes@),
            PackageEntryContent::Direct(bytes) => ContentView::Direct(bytes@),
        }
    }
}

/// An output: a content and the path under which it is to be written.
#[derive(Debug)]
pub struct PackageEntry {
    pub path: String,
    pub content: PackageEntryContent,
}

/// The mathematical value of a [`PackageEntry`].
pub struct EntryView {
    pub path: Seq<char>,
    pub content: ContentView,
}

impl View for PackageEntry {
    type V = EntryView;

    open spec fn view(&self) -> EntryView {
        EntryView { path: self.path@, content: self.content@ }
    }
}

/// Why one entry gave no output.
#[derive(Debug)]
pub enum EntryError {
    /// The header of the entry could not be decoded.
    Header,
    /// The path of the entry could not be decoded.
    Path,
    /// The pathname member of `id` does not hold a text.
    Pathname { id: Vec<u8> },
}

/// The mathematical value of an [`EntryError`].
pub enum ErrorView {
    Header,
    Path,
    Pathname { id: Seq<u8> },
}

impl View for EntryError {
    type V = ErrorView;

    open spec fn view(&self) -> ErrorView {
        match self {
            EntryError::Header => ErrorView::Header,
            EntryError::Path => ErrorView::Path,
            EntryError::Pathname { id } => ErrorView::Pathname { id: id@ },
        }
    }
}

/// What one call of [`PackageEntries::next`] hands out.
pub type Yielded = Result<EntryView, ErrorView>;

/// The view of an item.
pub open spec fn item_view(item: Result<PackageEntry, EntryError>) -> Yielded {
    match item {
        Ok(entry) => Ok(entry@),
        Err(error) => Err(error@),
    }
}

/// The views of the items in `items`.
pub open spec fn items_view(items: Seq<Result<PackageEntry, EntryError>>) -> Seq<Yielded> {
    items.map_values(|item: Result<PackageEntry, EntryError>| item_view(item))
}

/// The text that the content of a pathname member holds: what it encodes in UTF-8, or
/// nothing where it encodes no text.
pub open spec fn text_of(content: Seq<u8>) -> Option<Seq<char>> {
    if valid_utf8(content) {
        Some(decode_utf8(content))
    } else {
        None
    }
}

/// An output whose content was kept in a buffer.
pub open spec fn buffered(ready: (Seq<char>, Seq<u8>)) -> Yielded {
    Ok(EntryView { path: ready.0, content: ContentView::Buffer(ready.1) })
}

/// The outputs in `ready`, each with its content kept in a buffer.
pub open spec fn buffered_all(ready: Seq<(Seq<char>, Seq<u8>)>) -> Seq<Yielded> {
    ready.map_values(|one: (Seq<char>, Seq<u8>)| buffered(one))
}

/// The table after one raw entry, and what the entry yields.
pub struct Stepped {
    pub paths: Map<Seq<u8>, StatusView<Seq<u8>>>,
    pub yields: Seq<Yielded>,
}

/// What one raw entry does to the table, and what it yields.
pub open spec fn step(paths: Map<Seq<u8>, StatusView<Seq<u8>>>, entry: RawEntryView) -> Stepped {
    match entry {
        RawEntryView::Broken => Stepped { paths, yields: seq![Err(ErrorView::Header)] },
        RawEntryView::Entry { is_file, path, content } => match demand_spec(paths, is_file, path) {
            DemandView::Skip(_) => Stepped { paths, yields: Seq::empty() },
            DemandView::PathError => Stepped { paths, yields: seq![Err(ErrorView::Path)] },
            DemandView::Buffer { id, part } => Stepped {
                paths: store_spec(paths, id, part, content),
                yields: Seq::empty(),
            },
            DemandView::Direct { path } => Stepped {
                paths,
                yields: seq![Ok(EntryView { path, content: ContentView::Direct(content) })],
            },
            DemandView::Pathname { id } => match text_of(content) {
                None => Stepped {
                    paths: paths.insert(id, StatusView::Error),
                    yields: seq![Err(ErrorView::Pathname { id })],
                },
                Some(text) => Stepped {
                    paths: paths.insert(id, StatusView::KnownPath(resolved_name(text))),
                    yields: buffered_all(released(status_of(paths, id), resolved_name(text))),
                },
            },
        },
    }
}

/// What the entries of `archive` from `pos` on yield, one after the other, when the pass
/// has brought the table to `paths`.
pub open spec fn trace_from(
    paths: Map<Seq<u8>, StatusView<Seq<u8>>>,
    archive: Seq<RawEntryView>,
    pos: nat,
) -> Seq<Yielded>
    decreases archive.len() - pos,
{
    if pos >= archive.len() {
        Seq::empty()
    } else {
        let stepped = step(paths, archive[pos as int]);
        stepped.yields + trace_from(stepped.paths, archive, pos + 1)
    }
}

/// The table after the entries of `archive` from `from` up to `to`, when the pass had brought
/// it to `paths` before them.
pub open spec fn paths_after(
    paths: Map<Seq<u8>, StatusView<Seq<u8>>>,
    archive: Seq<RawEntryView>,
    from: nat,
    to: nat,
) -> Map<Seq<u8>, StatusView<Seq<u8>>>
    decreases to,
{
    if to <= from || to > archive.len() {
        paths
    } else {
        step(paths_after(paths, archive, from, (to - 1) as nat), archive[to - 1]).paths
    }
}

/// Whether the entries of `archive` from `from` up to `to` yield nothing, when the pass had
/// brought the table to `paths` before them.
pub open spec fn silent(
    paths: Map<Seq<u8>, StatusView<Seq<u8>>>,
    archive: Seq<RawEntryView>,
    from: nat,
    to: nat,
) -> bool {
    forall|j: nat|
        from <= j < to && j < archive.len() ==> (#[trigger] step(
            paths_after(paths, archive, from, j),
            archive[j as int],
        )).yields.len() == 0
}

/// What a pass over `archive` yields, from its first entry to its last.
pub open spec fn trace(archive: Seq<RawEntryView>) -> Seq<Yielded> {
    trace_from(Map::empty(), archive, 0)
}

/// The mathematical value of a [`Package`]: the archive, how many of its entries the pass
/// has consumed, and the engine.
pub struct PackageView {
    pub archive: Seq<RawEntryView>,
    pub pos: nat,
    pub engine: ReassemblerView<Seq<u8>>,
}

impl PackageView {
    /// What is still to be handed out: the output in the late slot, then what the rest of
    /// the archive yields.
    pub open spec fn pending(self) -> Seq<Yielded> {
        let late = match self.engine.late {
            Some(ready) => seq![buffered(ready)],
            None => Seq::empty(),
        };
        late + trace_from(self.engine.paths, self.archive, self.pos)
    }
}

/// A package: the raw entries of its archive, and the state of the pass over them.
pub struct Package {
    entries: Vec<RawEntry>,
    pos: usize,
    engine: Reassembler<Vec<u8>>,
}

impl View for Package {
    type V = PackageView;

    closed spec fn view(&self) -> PackageView {
        PackageView {
            archive: archive_of(self.entries@),
            pos: self.pos as nat,
            engine: self.engine@,
        }
    }
}

/// The pass over a package has begun before: a package is gone through once.
#[derive(Debug)]
pub struct Restarted;

/// The items of a package, in the order in which they become ready.
pub struct PackageEntries<'a> {
    /// The package that the pass goes through.
    pub package: &'a mut Package,
}

impl<'a> View for PackageEntries<'a> {
    type V = PackageView;

    open spec fn view(&self) -> PackageView {
        (*self.package)@
    }
}

/// `str::from_utf8` of std: the text of which `bytes` are the UTF-8 encoding, or `None` where
/// they are the encoding of no text.
#[verifier::external_body]
fn utf8_text(bytes: &[u8]) -> (text: Option<&str>)
    ensures
        text is Some <==> valid_utf8(bytes@),
        text is Some ==> text.unwrap()@ == decode_utf8(bytes@),
{
    std::str::from_utf8(bytes).ok()
}

/// Reads the content of a pathname member as text.
pub fn read_text(content: &[u8]) -> (text: Option<String>)
    ensures
        match text {
            Some(t) => text_of(content@) == Some(t@),
            None => text_of(content@) is None,
        },
{
    match utf8_text(content) {
        Some(text) => Some(text.to_owned()),
        None => None,
    }
}

impl Package {
    /// A package with the raw entries of its archive, in their order.
    pub fn new(entries: Vec<RawEntry>) -> (package: Self)
        ensures
            package@ == (PackageView {
                archive: archive_of(entries@),
                pos: 0,
                engine: ReassemblerView { paths: Map::empty(), late: None },
            }),
            package@.pending() == trace(archive_of(entries@)),
    {
        let package = Package { entries, pos: 0, engine: Reassembler::new() };
        assert(package@.pending() =~= trace(archive_of(entries@)));
        package
    }

    /// The items of the package. A package is gone through once: the call fails where an
    /// earlier pass has consumed an entry.
    pub fn entries(&mut self) -> (items: Result<PackageEntries<'_>, Restarted>)
        ensures
            items is Ok <==> old(self)@.pos == 0,
            match items {
                Ok(pass) => pass@ == old(self)@ && *final(self) == *final(pass.package),
                Err(_) => final(self)@ == old(self)@,
            },
    {
        if self.pos != 0 {
            return Err(Restarted);
        }
        Ok(PackageEntries { package: self })
    }
}

impl<'a> PackageEntries<'a> {
    /// The next item, or `None` when the archive is exhausted: the first of what was still to
    /// be handed out, of which the rest stays.
    pub fn next(&mut self) -> (item: Option<Result<PackageEntry, EntryError>>)
        ensures
            match item {
                Some(yielded) => old(self)@.pending().len() > 0 && item_view(yielded) == old(
                    self,
                )@.pending()[0] && final(self)@.pending() == old(self)@.pending().skip(1),
                None => old(self)@.pending().len() == 0 && final(self)@.pending().len() == 0,
            },
            final(self)@.archive == old(self)@.archive,
            old(self)@.engine.late is Some ==> final(self)@ == (PackageView {
                engine: ReassemblerView { paths: old(self)@.engine.paths, late: None },
                ..old(self)@
            }),
            old(self)@.engine.late is None ==> {
                &&& old(self)@.pos <= final(self)@.pos
                &&& item is Some ==> old(self)@.pos < final(self)@.pos <= old(self)@.archive.len()
                &&& item is None ==> final(self)@.pos == vstd::math::max(
                    old(self)@.pos as int,
                    old(self)@.archive.len() as int,
                )
                &&& final(self)@.engine.paths == paths_after(
                    old(self)@.engine.paths,
                    old(self)@.archive,
                    old(self)@.pos,
                    final(self)@.pos,
                )
                &&& silent(
                    old(self)@.engine.paths,
                    old(self)@.archive,
                    old(self)@.pos,
                    if item is Some {
                        (final(self)@.pos - 1) as nat
                    } else {
                        final(self)@.pos
                    },
                )
            },
            *final(final(self).package) == *final(old(self).package),
    {
        if let Some((path, content)) = self.package.engine.take_late() {
            let entry = PackageEntry { path, content: PackageEntryContent::Buffer(content) };
            assert(self@.pending() =~= old(self)@.pending().skip(1));
            return Some(Ok(entry));
        }
        let ghost start = old(self)@.pending();
        assert(self@.pending() =~= start);
        while self.package.pos < self.package.entries.len()
            invariant
                self@.engine.late is None,
                start == old(self)@.pending(),
                self@.pending() == start,
                self@.archive == old(self)@.archive,
                old(self)@.engine.late is None,
                self@.pos >= old(self)@.pos,
                self@.pos <= self@.archive.len() || self@.pos == old(self)@.pos,
                self@.engine.paths == paths_after(
                    old(self)@.engine.paths,
                    self@.archive,
                    old(self)@.pos,
                    self@.pos,
                ),
                silent(old(self)@.engine.paths, self@.archive, old(self)@.pos, self@.pos),
                *final(self.package) == *final(old(self).package),
            decreases self.package.entries@.len() - self.package.pos,
        {
            let ghost before = self@;
            let ghost stepped = step(before.engine.paths, before.archive[before.pos as int]);
            let index = self.package.pos;
            self.package.pos = index + 1;
            proof {
                assert(before.archive[index as int] == self.package.entries@[index as int]@);
                assert(start == stepped.yields + trace_from(
                    stepped.paths,
                    before.archive,
                    before.pos + 1,
                ));
            }
            match &self.package.entries[index] {
                RawEntry::Broken => {
                    assert(self@.pending() =~= start.skip(1));
                    return Some(Err(EntryError::Header));
                },
                RawEntry::Entry { is_file, path, content } => {
                    let path = match path {
                        Some(p) => Some(p.as_slice()),
                        None => None,
                    };
                    match self.package.engine.inspect(*is_file, path) {
                        Demand::Skip(_) => {
                            assert(self@.pending() =~= start);
                        },
                        Demand::PathError => {
                            assert(self@.pending() =~= start.skip(1));
                            return Some(Err(EntryError::Path));
                        },
                        Demand::Buffer { id, part } => {
                            let copy = slice_to_vec(content.as_slice());
                            self.package.engine.store(id, part, copy);
                            assert(self@.pending() =~= start);
                        },
                        Demand::Direct { path } => {
                            let copy = slice_to_vec(content.as_slice());
                            let entry = PackageEntry {
                                path,
                                content: PackageEntryContent::Direct(copy),
                            };
                            assert(self@.pending() =~= start.skip(1));
                            return Some(Ok(entry));
                        },
                        Demand::Pathname { id } => {
                            match read_text(content.as_slice()) {
                                None => {
                                    let named = slice_to_vec(id.as_slice());
                                    self.package.engine.fail(named);
                                    assert(self@.pending() =~= start.skip(1));
                                    return Some(Err(EntryError::Pathname { id }));
                                },
                                Some(text) => {
                                    let resolution = self.package.engine.resolve(id, text);
                                    if let Some((path, content)) = resolution.ready {
                                        let entry = PackageEntry {
                                            path,
                                            content: PackageEntryContent::Buffer(content),
                                        };
                                        assert(self@.pending() =~= start.skip(1));
                                        return Some(Ok(entry));
                                    }
                                    assert(self@.pending() =~= start);
                                },
                            }
                        },
                    }
                },
            }
        }
        assert(self@.pending() =~= Seq::<Yielded>::empty());
        None
    }

    /// All the items that are still to be handed out, in their order. The pass is exhausted
    /// after that.
    pub fn collect(&mut self) -> (items: Vec<Result<PackageEntry, EntryError>>)
        ensures
            items_view(items@) == old(self)@.pending(),
            final(self)@.pending().len() == 0,
            final(self)@.archive == old(self)@.archive,
            *final(final(self).package) == *final(old(self).package),
    {
        let mut items: Vec<Result<PackageEntry, EntryError>> = Vec::new();
        assert(items_view(items@) + self@.pending() =~= old(self)@.pending());
        loop
            invariant
                items_view(items@) + self@.pending() == old(self)@.pending(),
                self@.archive == old(self)@.archive,
                *final(self.package) == *final(old(self).package),
            ensures
                items_view(items@) == old(self)@.pending(),
                self@.pending().len() == 0,
            decreases self@.pending().len(),
        {
            let ghost rest = self@.pending();
            let ghost seen = items@;
            match self.next() {
                Some(item) => {
                    items.push(item);
                    assert(items_view(items@) =~= items_view(seen).push(rest[0]));
                    assert(items_view(items@) + rest.skip(1) =~= items_view(seen) + rest);
                },
                None => {
                    assert(items_view(items@) + rest =~= items_view(items@));
                    break;
                },
            }
        }
        items
    }
}

} // verus!
