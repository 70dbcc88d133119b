//! The reassembly engine: what is decided for each raw entry of a pass, and what it does to the
//! states of the identifiers.
//!
//! The engine does no reading of its own. For each raw entry its caller asks what the entry
//! demands ([`Reassembler::inspect`]), does the reading that the answer asks for, and reports
//! back ([`Reassembler::store`], [`Reassembler::resolve`], [`Reassembler::fail`]). An output
//! that became ready together with another one waits in the late slot until it is taken
//! ([`Reassembler::take_late`]).

use crate::member::{classify, classify_spec, Member, MemberView, Part};
use crate::state::{
    content_view, status_of, AssetParts, ItemStatus, PartsView, PathTable, StatusView,
};
use vstd::prelude::*;

verus! {

/// The prefix that a pathname conventionally begins with, and that is taken off: `Assets/`.
pub open spec fn assets_prefix() -> Seq<char> {
    seq!['A', 's', 's', 'e', 't', 's', '/']
}

/// What is added to the path of an asset for the path of its metadata: `.meta`.
pub open spec fn meta_suffix() -> Seq<char> {
    seq!['.', 'm', 'e', 't', 'a']
}

/// Whether `text` begins with the prefix that is taken off.
pub open spec fn has_assets_prefix(text: Seq<char>) -> bool {
    assets_prefix().is_prefix_of(text)
}

/// The path that the text of a pathname member resolves to: the text without its `Assets/`
/// prefix, or the whole text if it has no such prefix.
pub open spec fn resolved_name(text: Seq<char>) -> Seq<char> {
    if has_assets_prefix(text) {
        text.skip(assets_prefix().len() as int)
    } else {
        text
    }
}

/// The path under which a part of the asset named `name` is written.
pub open spec fn output_path(name: Seq<char>, part: Part) -> Seq<char> {
    match part {
        Part::AssetMeta => name + meta_suffix(),
        _ => name,
    }
}

/// Why an entry is passed over.
#[derive(Clone, Copy, Debug, PartialEq, Eq, Structural)]
pub enum Skipped {
    /// The entry is not a regular file.
    NotFile,
    /// The path of the entry does not have exactly two components.
    Misshapen,
    /// The entry is the preview image of an identifier.
    Preview,
    /// The second component of the path names no known member.
    Unrecognized,
    /// The identifier of the entry is in error.
    Failed,
}

/// What the engine asks of its caller for one raw entry.
#[derive(Debug)]
pub enum Demand {
    /// Nothing: the entry is passed over.
    Skip(Skipped),
    /// The path of the entry could not be decoded: the caller reports that failure.
    PathError,
    /// The content is to be copied into a buffer and handed to [`Reassembler::store`].
    Buffer { id: Vec<u8>, part: Part },
    /// The entry is an output as it stands, under the path given here.
    Direct { path: String },
    /// The content is the text of a pathname, to be read and handed to
    /// [`Reassembler::resolve`], or to [`Reassembler::fail`] if it cannot be read.
    Pathname { id: Vec<u8> },
}

/// The mathematical value of a [`Demand`].
pub enum DemandView {
    Skip(Skipped),
    PathError,
    Buffer { id: Seq<u8>, part: Part },
    Direct { path: Seq<char> },
    Pathname { id: Seq<u8> },
}

impl View for Demand {
    type V = DemandView;

    open spec fn view(&self) -> DemandView {
        match self {
            Demand::Skip(why) => DemandView::Skip(*why),
            Demand::PathError => DemandView::PathError,
            Demand::Buffer { id, part } => DemandView::Buffer { id: id@, part: *part },
            Demand::Direct { path } => DemandView::Direct { path: path@ },
            Demand::Pathname { id } => DemandView::Pathname { id: id@ },
        }
    }
}

/// What a regular file at a path that names the member `part` of `id` demands, by the state
/// of `id`.
pub open spec fn member_demand<V>(status: StatusView<V>, id: Seq<u8>, part: Part) -> DemandView {
    match part {
        Part::Pathname => DemandView::Pathname { id },
        _ => match status {
            StatusView::AwaitingPath(_) => DemandView::Buffer { id, part },
            StatusView::KnownPath(name) => DemandView::Direct { path: output_path(name, part) },
            StatusView::Error => DemandView::Skip(Skipped::Failed),
        },
    }
}

/// What a raw entry demands: `is_file` says whether it is a regular file, `path` is its path,
/// or `None` where the path could not be decoded.
pub open spec fn demand_spec<V>(
    paths: Map<Seq<u8>, StatusView<V>>,
    is_file: bool,
    path: Option<Seq<u8>>,
) -> DemandView {
    if !is_file {
        DemandView::Skip(Skipped::NotFile)
    } else {
        match path {
            None => DemandView::PathError,
            Some(p) => match classify_spec(p) {
                MemberView::Misshapen => DemandView::Skip(Skipped::Misshapen),
                MemberView::Preview => DemandView::Skip(Skipped::Preview),
                MemberView::Unrecognized { .. } => DemandView::Skip(Skipped::Unrecognized),
                MemberView::Part { id, part } => member_demand(status_of(paths, id), id, part),
            },
        }
    }
}

/// A state with `content` as its part `part`, if the state still awaits its path; the state
/// itself if not.
pub open spec fn with_part<V>(status: StatusView<V>, part: Part, content: V) -> StatusView<V> {
    match status {
        StatusView::AwaitingPath(parts) => match part {
            Part::Asset => StatusView::AwaitingPath(
                PartsView { asset: Some(content), metadata: parts.metadata },
            ),
            Part::AssetMeta => StatusView::AwaitingPath(
                PartsView { asset: parts.asset, metadata: Some(content) },
            ),
            Part::Pathname => status,
        },
        _ => status,
    }
}

/// The table after the content of the member `part` of `id` has been buffered.
pub open spec fn store_spec<V>(
    paths: Map<Seq<u8>, StatusView<V>>,
    id: Seq<u8>,
    part: Part,
    content: V,
) -> Map<Seq<u8>, StatusView<V>> {
    match part {
        Part::Pathname => paths,
        _ => paths.insert(id, with_part(status_of(paths, id), part, content)),
    }
}

/// The outputs that become ready when an identifier in state `status` gets the path `name`:
/// the asset, then its metadata, as far as they were buffered.
pub open spec fn released<V>(status: StatusView<V>, name: Seq<char>) -> Seq<(Seq<char>, V)> {
    match status {
        StatusView::AwaitingPath(parts) => {
            let asset = match parts.asset {
                Some(a) => seq![(output_path(name, Part::Asset), a)],
                None => Seq::empty(),
            };
            let metadata = match parts.metadata {
                Some(m) => seq![(output_path(name, Part::AssetMeta), m)],
                None => Seq::empty(),
            };
            asset + metadata
        },
        _ => Seq::empty(),
    }
}

/// The mathematical value of a [`Reassembler`].
pub struct ReassemblerView<V> {
    /// The state of each identifier seen so far.
    pub paths: Map<Seq<u8>, StatusView<V>>,
    /// The output that waits in the late slot.
    pub late: Option<(Seq<char>, V)>,
}

/// The view of an output that may be missing.
pub open spec fn ready_view<B: View>(ready: Option<(String, B)>) -> Option<(Seq<char>, B::V)> {
    match ready {
        Some((path, content)) => Some((path@, content@)),
        None => None,
    }
}

/// The engine after the pathname of `id` has been read as `text`: `id` has its path, and of
/// the outputs released by that, the second one waits in the late slot.
pub open spec fn resolve_spec<V>(
    before: ReassemblerView<V>,
    id: Seq<u8>,
    text: Seq<char>,
) -> ReassemblerView<V> {
    let name = resolved_name(text);
    let ready = released(status_of(before.paths, id), name);
    ReassemblerView {
        paths: before.paths.insert(id, StatusView::KnownPath(name)),
        late: if ready.len() == 2 {
            Some(ready[1])
        } else {
            before.late
        },
    }
}

/// The output that is ready at once when the pathname of `id` has been read as `text`.
pub open spec fn resolve_ready<V>(
    before: ReassemblerView<V>,
    id: Seq<u8>,
    text: Seq<char>,
) -> Option<(Seq<char>, V)> {
    let ready = released(status_of(before.paths, id), resolved_name(text));
    if ready.len() > 0 {
        Some(ready[0])
    } else {
        None
    }
}

/// What reading a pathname gave.
pub struct Resolution<B> {
    /// Whether the text began with `Assets/`. A text that does not is kept as it is.
    pub prefixed: bool,
    /// The output that is ready at once, if there is one.
    pub ready: Option<(String, B)>,
}

/// The reassembly engine: the state of each identifier, and the late slot.
pub struct Reassembler<B> {
    paths: PathTable<B>,
    late: Option<(String, B)>,
}

impl<B: View> View for Reassembler<B> {
    type V = ReassemblerView<B::V>;

    closed spec fn view(&self) -> ReassemblerView<B::V> {
        ReassemblerView { paths: self.paths@, late: ready_view(self.late) }
    }
}

/// The path of the metadata of the asset named `name`.
pub fn meta_path(name: &String) -> (path: String)
    ensures
        path@ == name@ + meta_suffix(),
{
    let mut path = name.clone();
    proof {
        reveal_strlit(".meta");
    }
    path.append(".meta");
    assert(".meta"@ =~= meta_suffix());
    path
}

/// Takes the prefix `Assets/` off `text` if it begins with it, and says whether it did.
pub fn strip_assets(text: String) -> (stripped: (String, bool))
    ensures
        stripped.0@ == resolved_name(text@),
        stripped.1 == has_assets_prefix(text@),
{
    let n: usize = text.as_str().unicode_len();
    if n < 7 {
        return (text, false);
    }
    let prefix: [char; 7] = ['A', 's', 's', 'e', 't', 's', '/'];
    assert(prefix@ =~= assets_prefix());
    let mut i: usize = 0;
    while i < 7
        invariant
            i <= 7 <= n,
            n == text@.len(),
            prefix@ == assets_prefix(),
            forall|j: int| 0 <= j < i ==> text@[j] == assets_prefix()[j],
        decreases 7 - i,
    {
        if text.as_str().get_char(i) != prefix[i] {
            return (text, false);
        }
        i += 1;
    }
    assert(text@.subrange(0, 7) =~= assets_prefix());
    let rest = text.as_str().substring_char(7, n).to_owned();
    assert(text@.subrange(7, n as int) =~= text@.skip(7));
    (rest, true)
}

impl<B: View> Reassembler<B> {
    /// An engine that has seen nothing.
    pub fn new() -> (engine: Self)
        ensures
            engine@.paths == Map::<Seq<u8>, StatusView<B::V>>::empty(),
            engine@.late is None,
    {
        Reassembler { paths: PathTable::new(), late: None }
    }

    /// Whether an output waits in the late slot.
    pub fn has_late(&self) -> (occupied: bool)
        ensures
            occupied == self@.late is Some,
    {
        self.late.is_some()
    }

    /// Takes the output that waits in the late slot, if there is one, and leaves the slot empty.
    pub fn take_late(&mut self) -> (ready: Option<(String, B)>)
        ensures
            ready_view(ready) == old(self)@.late,
            final(self)@ == (ReassemblerView { paths: old(self)@.paths, late: None }),
    {
        self.late.take()
    }

    /// Says what a raw entry demands. `is_file` says whether the entry is a regular file;
    /// `path` is its path, or `None` where the path could not be decoded.
    pub fn inspect(&self, is_file: bool, path: Option<&[u8]>) -> (demand: Demand)
        ensures
            demand@ == demand_spec(
                self@.paths,
                is_file,
                match path {
                    Some(p) => Some(p@),
                    None => None,
                },
            ),
    {
        if !is_file {
            return Demand::Skip(Skipped::NotFile);
        }
        let path = match path {
            Some(path) => path,
            None => {
                return Demand::PathError;
            },
        };
        match classify(path) {
            Member::Misshapen => Demand::Skip(Skipped::Misshapen),
            Member::Preview => Demand::Skip(Skipped::Preview),
            Member::Unrecognized { .. } => Demand::Skip(Skipped::Unrecognized),
            Member::Part { id, part } => {
                if let Part::Pathname = part {
                    return Demand::Pathname { id };
                }
                match self.paths.get(id.as_slice()) {
                    None | Some(ItemStatus::AwaitingPath(_)) => Demand::Buffer { id, part },
                    Some(ItemStatus::KnownPath(name)) => {
                        let path = match part {
                            Part::AssetMeta => meta_path(name),
                            _ => name.clone(),
                        };
                        Demand::Direct { path }
                    },
                    Some(ItemStatus::Error) => Demand::Skip(Skipped::Failed),
                }
            },
        }
    }

    /// Keeps `content` as the part `part` of `id` until the path of `id` is known. A content
    /// kept before for the same part is replaced. Says whether the content was kept: it is
    /// not where `id` no longer awaits its path, or where `part` is the pathname.
    pub fn store(&mut self, id: Vec<u8>, part: Part, content: B) -> (kept: bool)
        ensures
            final(self)@ == (ReassemblerView {
                paths: store_spec(old(self)@.paths, id@, part, content@),
                late: old(self)@.late,
            }),
            kept == (part != Part::Pathname && status_of(old(self)@.paths, id@)
                is AwaitingPath),
    {
        if let Part::Pathname = part {
            return false;
        }
        match self.paths.get_or_create(id) {
            ItemStatus::AwaitingPath(parts) => {
                match part {
                    Part::Asset => {
                        parts.asset = Some(content);
                    },
                    _ => {
                        parts.metadata = Some(content);
                    },
                }
                true
            },
            _ => false,
        }
    }

    /// Marks `id` as in error: its pathname member could not be read.
    pub fn fail(&mut self, id: Vec<u8>)
        ensures
            final(self)@ == (ReassemblerView {
                paths: old(self)@.paths.insert(id@, StatusView::Error),
                late: old(self)@.late,
            }),
    {
        let _ = self.paths.set(id, ItemStatus::Error);
    }

    /// Gives `id` the path that `text`, the content of its pathname member, resolves to, and
    /// releases the parts that were kept for it: the first is handed back, the second waits
    /// in the late slot, in the place of what waited there. A caller that takes the late slot
    /// before each entry loses nothing.
    pub fn resolve(&mut self, id: Vec<u8>, text: String) -> (resolution: Resolution<B>)
        ensures
            final(self)@ == resolve_spec(old(self)@, id@, text@),
            ready_view(resolution.ready) == resolve_ready(old(self)@, id@, text@),
            resolution.prefixed == has_assets_prefix(text@),
    {
        let (name, prefixed) = strip_assets(text);
        let meta = meta_path(&name);
        let previous = self.paths.set(id, ItemStatus::KnownPath(name.clone()));
        let ready = match previous {
            Some(ItemStatus::AwaitingPath(parts)) => match parts {
                AssetParts { asset: Some(asset), metadata: Some(metadata) } => {
                    self.late = Some((meta, metadata));
                    Some((name, asset))
                },
                AssetParts { asset: Some(asset), metadata: None } => Some((name, asset)),
                AssetParts { asset: None, metadata: Some(metadata) } => Some((meta, metadata)),
                AssetParts { asset: None, metadata: None } => None,
            },
            _ => None,
        };
        Resolution { prefixed, ready }
    }
}

} // verus!
