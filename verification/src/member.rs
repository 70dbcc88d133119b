//! Entry paths: how the path of a raw archive entry names an identifier and one of its members.
//!
//! A path is a string of bytes whose components are separated by `/`. Empty components and
//! components that are a single `.` do not count, except that a path may begin with the root
//! (a leading `/`) or with a `.` component. A member of a package lies at a path of exactly two
//! components: the identifier of an asset and the name of one of its members.

use vstd::prelude::*;

verus! {

/// The byte that separates the components of an entry path.
pub const SEPARATOR: u8 = 0x2f;

/// The byte of a component that stands for the current directory.
pub const DOT: u8 = 0x2e;

/// The member of an identifier that an entry holds.
#[derive(Clone, Copy, Debug, PartialEq, Eq, Structural)]
pub enum Part {
    /// The content of the asset.
    Asset,
    /// The metadata of the asset.
    AssetMeta,
    /// The text that names the path of the asset.
    Pathname,
}

/// What an entry path says about the entry.
#[derive(Debug)]
pub enum Member {
    /// A member of the identifier `id`.
    Part { id: Vec<u8>, part: Part },
    /// The preview image of an identifier, which is passed over in silence.
    Preview,
    /// A path of two components whose second one names no known member.
    Unrecognized { id: Vec<u8>, name: Vec<u8> },
    /// A path that does not have exactly two components.
    Misshapen,
}

/// The mathematical value of a [`Member`].
pub enum MemberView {
    Part { id: Seq<u8>, part: Part },
    Preview,
    Unrecognized { id: Seq<u8>, name: Seq<u8> },
    Misshapen,
}

impl View for Member {
    type V = MemberView;

    open spec fn view(&self) -> MemberView {
        match self {
            Member::Part { id, part } => MemberView::Part { id: id@, part: *part },
            Member::Preview => MemberView::Preview,
            Member::Unrecognized { id, name } => MemberView::Unrecognized { id: id@, name: name@ },
            Member::Misshapen => MemberView::Misshapen,
        }
    }
}

/// The member name `asset`.
pub open spec fn asset_name() -> Seq<u8> {
    seq![
        'a' as u8,
        's' as u8,
        's' as u8,
        'e' as u8,
        't' as u8,
    ]
}

/// The member name `asset.meta`.
pub open spec fn asset_meta_name() -> Seq<u8> {
    seq![
        'a' as u8,
        's' as u8,
        's' as u8,
        'e' as u8,
        't' as u8,
        '.' as u8,
        'm' as u8,
        'e' as u8,
        't' as u8,
        'a' as u8,
    ]
}

/// The member name `pathname`.
pub open spec fn pathname_name() -> Seq<u8> {
    seq![
        'p' as u8,
        'a' as u8,
        't' as u8,
        'h' as u8,
        'n' as u8,
        'a' as u8,
        'm' as u8,
        'e' as u8,
    ]
}

/// The member name `preview.png`.
pub open spec fn preview_name() -> Seq<u8> {
    seq![
        'p' as u8,
        'r' as u8,
        'e' as u8,
        'v' as u8,
        'i' as u8,
        'e' as u8,
        'w' as u8,
        '.' as u8,
        'p' as u8,
        'n' as u8,
        'g' as u8,
    ]
}

/// The number of bytes before the first separator of `path`, or its length if it has none.
pub open spec fn first_separator(path: Seq<u8>) -> nat
    decreases path.len(),
{
    if path.len() == 0 || path[0] == SEPARATOR {
        0
    } else {
        1 + first_separator(path.skip(1))
    }
}

/// The pieces between the separators of `path`, empty ones included.
pub open spec fn segments(path: Seq<u8>) -> Seq<Seq<u8>>
    decreases path.len(),
{
    let k = first_separator(path) as int;
    if k >= path.len() {
        seq![path]
    } else {
        seq![path.take(k)] + segments(path.skip(k + 1))
    }
}

/// Whether a segment counts as a component wherever it stands: it is neither empty nor a dot.
pub open spec fn is_named(segment: Seq<u8>) -> bool {
    segment.len() > 0 && segment != seq![DOT]
}

/// The component that a path begins with before its named segments, if it has one:
/// the root for a path that begins with a separator, a dot for one whose first segment is a dot.
pub open spec fn lead(path: Seq<u8>) -> Seq<Seq<u8>> {
    if path.len() > 0 && path[0] == SEPARATOR {
        seq![seq![SEPARATOR]]
    } else if segments(path)[0] == seq![DOT] {
        seq![seq![DOT]]
    } else {
        Seq::empty()
    }
}

/// The segments among `pieces` that count as components wherever they stand.
pub open spec fn named(pieces: Seq<Seq<u8>>) -> Seq<Seq<u8>> {
    pieces.filter(|segment: Seq<u8>| is_named(segment))
}

/// The components of `path`: its lead, then its named segments in order.
pub open spec fn components(path: Seq<u8>) -> Seq<Seq<u8>> {
    lead(path) + named(segments(path))
}

/// The member of a path of two components, by the name in its second one.
pub open spec fn member_named(id: Seq<u8>, name: Seq<u8>) -> MemberView {
    if name == preview_name() {
        MemberView::Preview
    } else if name == asset_name() {
        MemberView::Part { id, part: Part::Asset }
    } else if name == asset_meta_name() {
        MemberView::Part { id, part: Part::AssetMeta }
    } else if name == pathname_name() {
        MemberView::Part { id, part: Part::Pathname }
    } else {
        MemberView::Unrecognized { id, name }
    }
}

/// What the entry path `path` says about its entry.
pub open spec fn classify_spec(path: Seq<u8>) -> MemberView {
    let parts = components(path);
    if parts.len() == 2 {
        member_named(parts[0], parts[1])
    } else {
        MemberView::Misshapen
    }
}

/// The first separator of a path is the first place where a separator stands.
proof fn lemma_first_separator(path: Seq<u8>, k: int)
    requires
        0 <= k <= path.len(),
        forall|j: int| 0 <= j < k ==> path[j] != SEPARATOR,
        k < path.len() ==> path[k] == SEPARATOR,
    ensures
        first_separator(path) == k,
    decreases path.len(),
{
    if path.len() == 0 || path[0] == SEPARATOR {
    } else {
        lemma_first_separator(path.skip(1), k - 1);
    }
}

/// The first segment of a path is what stands before its first separator.
proof fn lemma_first_segment(path: Seq<u8>)
    ensures
        first_separator(path) <= path.len(),
        first_separator(path) < path.len() ==> path[first_separator(path) as int] == SEPARATOR,
        forall|j: int| 0 <= j < first_separator(path) ==> path[j] != SEPARATOR,
        segments(path).len() >= 1,
        segments(path)[0] == path.take(first_separator(path) as int),
    decreases path.len(),
{
    if path.len() == 0 || path[0] == SEPARATOR {
    } else {
        lemma_first_segment(path.skip(1));
        assert forall|j: int| 0 <= j < first_separator(path) implies path[j] != SEPARATOR by {
            if j > 0 {
                assert(path.skip(1)[j - 1] == path[j]);
            }
        }
    }
    let k = first_separator(path) as int;
    if k >= path.len() {
        assert(path.take(k) =~= path);
    }
}

/// Adding a segment adds it to the named ones if it is named, and changes nothing if not.
proof fn lemma_named_push(pieces: Seq<Seq<u8>>, segment: Seq<u8>)
    ensures
        named(pieces.push(segment)) == if is_named(segment) {
            named(pieces).push(segment)
        } else {
            named(pieces)
        },
{
    reveal(Seq::filter);
    assert(pieces.push(segment).drop_last() =~= pieces);
}

/// Whether `piece` can stand as one component of a path: it is not empty, holds no
/// separator, and is not a dot.
pub open spec fn is_plain(piece: Seq<u8>) -> bool {
    is_named(piece) && forall|i: int| 0 <= i < piece.len() ==> piece[i] != SEPARATOR
}

/// The path of the member `name` of `id`: the two joined by a separator.
pub open spec fn member_path(id: Seq<u8>, name: Seq<u8>) -> Seq<u8> {
    id + seq![SEPARATOR] + name
}

/// An identifier and a member name, joined by a separator, make a path of exactly these two
/// components, which names the member by its name.
pub proof fn lemma_member_path(id: Seq<u8>, name: Seq<u8>)
    requires
        is_plain(id),
        is_plain(name),
    ensures
        components(member_path(id, name)) == seq![id, name],
        classify_spec(member_path(id, name)) == member_named(id, name),
{
    let path = member_path(id, name);
    let k = id.len() as int;
    lemma_first_separator(path, k);
    assert(path.take(k) =~= id);
    assert(path.skip(k + 1) =~= name);
    lemma_first_separator(name, name.len() as int);
    assert(segments(name) =~= seq![name]);
    assert(segments(path) =~= seq![id, name]);
    let none = Seq::<Seq<u8>>::empty();
    assert(named(none) =~= none) by {
        reveal(Seq::filter);
    }
    lemma_named_push(none, id);
    lemma_named_push(none.push(id), name);
    assert(none.push(id).push(name) =~= seq![id, name]);
    assert(path[0] == id[0]);
    assert(lead(path) =~= none);
    assert(components(path) =~= seq![id, name]);
}

/// The views of the byte strings in `parts`.
pub open spec fn views(parts: Seq<Vec<u8>>) -> Seq<Seq<u8>> {
    parts.map_values(|part: Vec<u8>| part@)
}

/// Copies the bytes of `path` from `start` up to `end`.
fn copy_range(path: &[u8], start: usize, end: usize) -> (piece: Vec<u8>)
    requires
        start <= end <= path.len(),
    ensures
        piece@ == path@.subrange(start as int, end as int),
{
    let mut piece: Vec<u8> = Vec::new();
    let mut i: usize = start;
    while i < end
        invariant
            start <= i <= end <= path.len(),
            piece@ == path@.subrange(start as int, i as int),
        decreases end - i,
    {
        piece.push(path[i]);
        i += 1;
        assert(piece@ =~= path@.subrange(start as int, i as int));
    }
    piece
}

/// Splits an entry path into its components.
pub fn split(path: &[u8]) -> (parts: Vec<Vec<u8>>)
    ensures
        views(parts@) == components(path@),
{
    let mut parts: Vec<Vec<u8>> = Vec::new();
    let n: usize = path.len();
    proof {
        lemma_first_segment(path@);
        if n > 0 && path@[0] != SEPARATOR {
            if n == 1 || path@[1] == SEPARATOR {
                lemma_first_separator(path@, 1);
            }
            assert(segments(path@)[0] == seq![DOT] <==> path@[0] == DOT && (n == 1 || path@[1]
                == SEPARATOR)) by {
                let first = segments(path@)[0];
                if first == seq![DOT] {
                    assert(first.len() == 1);
                    assert(first[0] == DOT);
                    assert(first_separator(path@) == 1);
                } else if path@[0] == DOT && (n == 1 || path@[1] == SEPARATOR) {
                    assert(first =~= seq![DOT]);
                }
            }
        }
        if n == 0 {
            assert(segments(path@)[0].len() == 0);
        }
    }
    if n > 0 && path[0] == SEPARATOR {
        let mut root: Vec<u8> = Vec::new();
        root.push(SEPARATOR);
        assert(root@ =~= seq![SEPARATOR]);
        parts.push(root);
    } else if n > 0 && path[0] == DOT && (n == 1 || path[1] == SEPARATOR) {
        let mut dot: Vec<u8> = Vec::new();
        dot.push(DOT);
        assert(dot@ =~= seq![DOT]);
        parts.push(dot);
    }
    let mut start: usize = 0;
    let mut done: bool = false;
    let ghost mut seen: Seq<Seq<u8>> = Seq::empty();
    proof {
        assert(views(parts@) =~= lead(path@));
        assert(path@.skip(0) =~= path@);
        assert(named(seen) =~= Seq::empty()) by {
            reveal(Seq::filter);
        }
        assert(seen + segments(path@) =~= segments(path@));
    }
    while !done
        invariant
            n == path.len(),
            start <= n,
            !done ==> segments(path@) == seen + segments(path@.skip(start as int)),
            done ==> segments(path@) == seen,
            views(parts@) == lead(path@) + named(seen),
        decreases n - start + (if done { 0int } else { 1int }),
    {
        let mut end: usize = start;
        while end < n && path[end] != SEPARATOR
            invariant
                n == path.len(),
                start <= end <= n,
                forall|j: int| start <= j < end ==> path@[j] != SEPARATOR,
            decreases n - end,
        {
            end += 1;
        }
        let ghost rest = path@.skip(start as int);
        let ghost segment = path@.subrange(start as int, end as int);
        proof {
            lemma_first_separator(rest, end - start);
            assert(rest.take(end - start) =~= segment);
            if end == n {
                assert(segment =~= rest);
                assert(seen + seq![segment] =~= seen.push(segment));
            } else {
                assert(rest.skip(end - start + 1) =~= path@.skip(end + 1));
                assert(seen + (seq![segment] + segments(path@.skip(end + 1))) =~= seen.push(segment)
                    + segments(path@.skip(end + 1)));
            }
            lemma_named_push(seen, segment);
            assert(is_named(segment) <==> end > start && !(end - start == 1 && path@[start as int]
                == DOT)) by {
                if end - start == 1 {
                    if path@[start as int] == DOT {
                        assert(segment =~= seq![DOT]);
                    } else {
                        assert(segment[0] != DOT);
                    }
                }
            }
        }
        let is_component = end > start && !(end - start == 1 && path[start] == DOT);
        if is_component {
            let piece = copy_range(path, start, end);
            proof {
                assert(views(parts@.push(piece)) =~= views(parts@).push(segment));
                assert(lead(path@) + named(seen).push(segment) =~= (lead(path@) + named(seen)).push(
                    segment,
                ));
            }
            parts.push(piece);
        }
        if end == n {
            done = true;
        } else {
            start = end + 1;
        }
        proof {
            seen = seen.push(segment);
        }
    }
    parts
}

/// Whether two byte strings hold the same bytes.
pub fn same_bytes(a: &[u8], b: &[u8]) -> (same: bool)
    ensures
        same == (a@ == b@),
{
    if a.len() != b.len() {
        return false;
    }
    let mut i: usize = 0;
    while i < a.len()
        invariant
            a.len() == b.len(),
            i <= a.len(),
            forall|j: int| 0 <= j < i ==> a@[j] == b@[j],
        decreases a.len() - i,
    {
        if a[i] != b[i] {
            return false;
        }
        i += 1;
    }
    assert(a@ =~= b@);
    true
}

/// Whether `name` is the member name `asset`.
fn is_asset_name(name: &[u8]) -> (yes: bool)
    ensures
        yes == (name@ == asset_name()),
{
    let text: [u8; 5] = ['a' as u8, 's' as u8, 's' as u8, 'e' as u8, 't' as u8];
    assert(text@ =~= asset_name());
    same_bytes(name, text.as_slice())
}

/// Whether `name` is the member name `asset.meta`.
fn is_asset_meta_name(name: &[u8]) -> (yes: bool)
    ensures
        yes == (name@ == asset_meta_name()),
{
    let text: [u8; 10] = [
        'a' as u8,
        's' as u8,
        's' as u8,
        'e' as u8,
        't' as u8,
        '.' as u8,
        'm' as u8,
        'e' as u8,
        't' as u8,
        'a' as u8,
    ];
    assert(text@ =~= asset_meta_name());
    same_bytes(name, text.as_slice())
}

/// Whether `name` is the member name `pathname`.
fn is_pathname_name(name: &[u8]) -> (yes: bool)
    ensures
        yes == (name@ == pathname_name()),
{
    let text: [u8; 8] = [
        'p' as u8,
        'a' as u8,
        't' as u8,
        'h' as u8,
        'n' as u8,
        'a' as u8,
        'm' as u8,
        'e' as u8,
    ];
    assert(text@ =~= pathname_name());
    same_bytes(name, text.as_slice())
}

/// Whether `name` is the member name `preview.png`.
fn is_preview_name(name: &[u8]) -> (yes: bool)
    ensures
        yes == (name@ == preview_name()),
{
    let text: [u8; 11] = [
        'p' as u8,
        'r' as u8,
        'e' as u8,
        'v' as u8,
        'i' as u8,
        'e' as u8,
        'w' as u8,
        '.' as u8,
        'p' as u8,
        'n' as u8,
        'g' as u8,
    ];
    assert(text@ =~= preview_name());
    same_bytes(name, text.as_slice())
}

/// Says what the entry path `path` names: a member of an identifier, or nothing of interest.
pub fn classify(path: &[u8]) -> (member: Member)
    ensures
        member@ == classify_spec(path@),
{
    let mut parts = split(path);
    let ghost both = parts@;
    assert(views(both).len() == both.len());
    if parts.len() != 2 {
        return Member::Misshapen;
    }
    let name = parts.pop().unwrap();
    let id = parts.pop().unwrap();
    assert(views(both)[0] == id@ && views(both)[1] == name@);
    if is_preview_name(name.as_slice()) {
        Member::Preview
    } else if is_asset_name(name.as_slice()) {
        Member::Part { id, part: Part::Asset }
    } else if is_asset_meta_name(name.as_slice()) {
        Member::Part { id, part: Part::AssetMeta }
    } else if is_pathname_name(name.as_slice()) {
        Member::Part { id, part: Part::Pathname }
    } else {
        Member::Unrecognized { id, name }
    }
}

} // verus!
