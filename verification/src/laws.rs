//! What holds of every pass: the laws of reassembly, each proved from the definition of the
//! [`trace`](crate::package::trace).
//!
//! Most laws speak of one identifier. The members of an identifier are the regular files of
//! the archive whose paths name it, in the order of the archive, and what the identifier
//! yields is what the pass hands out at those entries.

use crate::member::{
    classify_spec, is_plain, lemma_member_path, member_path, preview_name, MemberView, Part,
};
use crate::package::{
    buffered_all, step, text_of, trace, trace_from, ContentView, EntryView, ErrorView,
    RawEntryView, Stepped, Yielded,
};
use crate::reassembly::{
    has_assets_prefix, meta_suffix, output_path, released, resolved_name, with_part,
};
use crate::state::{initial_status, status_of, StatusView};
use vstd::prelude::*;

verus! {

/// The tables of a pass.
pub type Paths = Map<Seq<u8>, StatusView<Seq<u8>>>;

/// A member of an identifier: which part it is, and its content.
pub type MemberOf = (Part, Seq<u8>);

/// The member of `id` that `entry` holds, if it holds one: the entry is a regular file and
/// its path names `id` and a part.
pub open spec fn member_of(entry: RawEntryView, id: Seq<u8>) -> Option<MemberOf> {
    match entry {
        RawEntryView::Entry { is_file: true, path: Some(p), content } => match classify_spec(p) {
            MemberView::Part { id: named, part } => if named == id {
                Some((part, content))
            } else {
                None
            },
            _ => None,
        },
        _ => None,
    }
}

/// The members of `id` among the entries of `archive` from `pos` on, in their order.
pub open spec fn members_from(archive: Seq<RawEntryView>, pos: nat, id: Seq<u8>) -> Seq<MemberOf>
    decreases archive.len() - pos,
{
    if pos >= archive.len() {
        Seq::empty()
    } else {
        let rest = members_from(archive, pos + 1, id);
        match member_of(archive[pos as int], id) {
            Some(member) => seq![member] + rest,
            None => rest,
        }
    }
}

/// The members of `id` in `archive`, in their order.
pub open spec fn members_of(archive: Seq<RawEntryView>, id: Seq<u8>) -> Seq<MemberOf> {
    members_from(archive, 0, id)
}

/// What the members of `id` among the entries of `archive` from `pos` on yield, when the pass
/// has brought the table to `paths`: the part of the trace that comes from those entries.
pub open spec fn yields_from(
    paths: Paths,
    archive: Seq<RawEntryView>,
    pos: nat,
    id: Seq<u8>,
) -> Seq<Yielded>
    decreases archive.len() - pos,
{
    if pos >= archive.len() {
        Seq::empty()
    } else {
        let stepped = step(paths, archive[pos as int]);
        let rest = yields_from(stepped.paths, archive, pos + 1, id);
        if member_of(archive[pos as int], id) is Some {
            stepped.yields + rest
        } else {
            rest
        }
    }
}

/// What `id` yields in a pass over `archive`.
pub open spec fn yields_of(archive: Seq<RawEntryView>, id: Seq<u8>) -> Seq<Yielded> {
    yields_from(Map::empty(), archive, 0, id)
}

/// The state of an identifier after one of its members, and what the member yields.
pub open spec fn member_step(id: Seq<u8>, status: StatusView<Seq<u8>>, member: MemberOf) -> (
    StatusView<Seq<u8>>,
    Seq<Yielded>,
) {
    let (part, content) = member;
    match part {
        Part::Pathname => match text_of(content) {
            None => (StatusView::Error, seq![Err(ErrorView::Pathname { id })]),
            Some(text) => (
                StatusView::KnownPath(resolved_name(text)),
                buffered_all(released(status, resolved_name(text))),
            ),
        },
        _ => match status {
            StatusView::AwaitingPath(_) => (with_part(status, part, content), Seq::empty()),
            StatusView::KnownPath(name) => (
                status,
                seq![
                    Ok(
                        EntryView {
                            path: output_path(name, part),
                            content: ContentView::Direct(content),
                        },
                    ),
                ],
            ),
            StatusView::Error => (status, Seq::empty()),
        },
    }
}

/// What the members of an identifier yield, one after the other, from the state `status`.
pub open spec fn member_run(
    id: Seq<u8>,
    status: StatusView<Seq<u8>>,
    members: Seq<MemberOf>,
) -> Seq<Yielded>
    decreases members.len(),
{
    if members.len() == 0 {
        Seq::empty()
    } else {
        let (next, yields) = member_step(id, status, members[0]);
        yields + member_run(id, next, members.skip(1))
    }
}

/// An entry that holds a member of `id` does to `id` what the member does, yields what the
/// member yields, and leaves every other identifier as it is.
pub proof fn lemma_step_of_member(paths: Paths, entry: RawEntryView, id: Seq<u8>)
    requires
        member_of(entry, id) is Some,
    ensures
        status_of(step(paths, entry).paths, id) == member_step(
            id,
            status_of(paths, id),
            member_of(entry, id).unwrap(),
        ).0,
        step(paths, entry).yields == member_step(
            id,
            status_of(paths, id),
            member_of(entry, id).unwrap(),
        ).1,
        forall|other: Seq<u8>|
            other != id ==> status_of(step(paths, entry).paths, other) == status_of(paths, other),
{
}

/// An entry that holds no member of `id` leaves `id` as it is.
pub proof fn lemma_step_of_other(paths: Paths, entry: RawEntryView, id: Seq<u8>)
    requires
        member_of(entry, id) is None,
    ensures
        status_of(step(paths, entry).paths, id) == status_of(paths, id),
{
}

/// Locality: what an identifier yields depends on its own members alone, in their order,
/// whatever stands between them in the archive.
pub proof fn lemma_yields_are_local(paths: Paths, archive: Seq<RawEntryView>, pos: nat, id: Seq<u8>)
    ensures
        yields_from(paths, archive, pos, id) == member_run(
            id,
            status_of(paths, id),
            members_from(archive, pos, id),
        ),
    decreases archive.len() - pos,
{
    if pos < archive.len() {
        let entry = archive[pos as int];
        let stepped = step(paths, entry);
        lemma_yields_are_local(stepped.paths, archive, pos + 1, id);
        let rest = members_from(archive, pos + 1, id);
        match member_of(entry, id) {
            Some(member) => {
                lemma_step_of_member(paths, entry, id);
                let members = seq![member] + rest;
                assert(members[0] == member);
                assert(members.skip(1) =~= rest);
            },
            None => {
                lemma_step_of_other(paths, entry, id);
            },
        }
    }
}

/// The path and the bytes that a yield puts out, if it is an output.
pub open spec fn emitted(yielded: Yielded) -> Option<(Seq<char>, Seq<u8>)> {
    match yielded {
        Ok(entry) => Some((entry.path, entry.content.bytes())),
        Err(_) => None,
    }
}

/// The outputs among `yields`, each as its path and its bytes, without their order.
pub open spec fn output_set(yields: Seq<Yielded>) -> Set<(Seq<char>, Seq<u8>)> {
    Set::new(
        |pair: (Seq<char>, Seq<u8>)|
            exists|k: int| 0 <= k < yields.len() && emitted(#[trigger] yields[k]) == Some(pair),
    )
}

/// Whether `members` are the three given ones, each once, in any order.
pub open spec fn are_three(members: Seq<MemberOf>, a: MemberOf, b: MemberOf, c: MemberOf) -> bool {
    &&& members.len() == 3
    &&& members.contains(a)
    &&& members.contains(b)
    &&& members.contains(c)
}

/// Whether `members` are the two given ones, each once, in any order.
pub open spec fn are_two(members: Seq<MemberOf>, a: MemberOf, b: MemberOf) -> bool {
    &&& members.len() == 2
    &&& members.contains(a)
    &&& members.contains(b)
}

/// What three members yield, one after the other.
proof fn lemma_run_three(id: Seq<u8>, status: StatusView<Seq<u8>>, members: Seq<MemberOf>)
    requires
        members.len() == 3,
    ensures
        ({
            let first = member_step(id, status, members[0]);
            let second = member_step(id, first.0, members[1]);
            let third = member_step(id, second.0, members[2]);
            member_run(id, status, members) == first.1 + second.1 + third.1
        }),
{
    let first = member_step(id, status, members[0]);
    let second = member_step(id, first.0, members[1]);
    let third = member_step(id, second.0, members[2]);
    let after_one = members.skip(1);
    let after_two = after_one.skip(1);
    let after_three = after_two.skip(1);
    assert(after_one[0] == members[1]);
    assert(after_two[0] == members[2]);
    assert(after_three.len() == 0);
    assert(member_run(id, third.0, after_three) =~= Seq::empty());
    assert(member_run(id, second.0, after_two) =~= third.1);
    assert(member_run(id, first.0, after_one) =~= second.1 + third.1);
    assert(member_run(id, status, members) =~= first.1 + second.1 + third.1);
}

/// What two members yield, one after the other.
proof fn lemma_run_two(id: Seq<u8>, status: StatusView<Seq<u8>>, members: Seq<MemberOf>)
    requires
        members.len() == 2,
    ensures
        ({
            let first = member_step(id, status, members[0]);
            let second = member_step(id, first.0, members[1]);
            member_run(id, status, members) == first.1 + second.1
        }),
{
    let first = member_step(id, status, members[0]);
    let second = member_step(id, first.0, members[1]);
    let after_one = members.skip(1);
    let after_two = after_one.skip(1);
    assert(after_one[0] == members[1]);
    assert(after_two.len() == 0);
    assert(member_run(id, second.0, after_two) =~= Seq::empty());
    assert(member_run(id, first.0, after_one) =~= second.1);
    assert(member_run(id, status, members) =~= first.1 + second.1);
}

/// An identifier with an asset, its metadata and a readable pathname, each once and in any
/// order among whatever else the archive holds, yields exactly two outputs: the asset under
/// the resolved path, and the metadata under that path with `.meta` added, each with the
/// bytes of its member. Where the pathname comes last, so that both become ready at once,
/// the asset comes first.
pub proof fn lemma_complete_identifier(
    archive: Seq<RawEntryView>,
    id: Seq<u8>,
    asset: Seq<u8>,
    metadata: Seq<u8>,
    pathname: Seq<u8>,
)
    requires
        text_of(pathname) is Some,
        are_three(
            members_of(archive, id),
            (Part::Asset, asset),
            (Part::AssetMeta, metadata),
            (Part::Pathname, pathname),
        ),
    ensures
        ({
            let name = resolved_name(text_of(pathname).unwrap());
            let yields = yields_of(archive, id);
            let of_asset = (name, asset);
            let of_metadata = (name + meta_suffix(), metadata);
            &&& yields.len() == 2
            &&& output_set(yields) == set![of_asset, of_metadata]
            &&& (emitted(yields[0]) == Some(of_asset) && emitted(yields[1]) == Some(of_metadata))
                || (emitted(yields[0]) == Some(of_metadata) && emitted(yields[1]) == Some(
                of_asset,
            ))
            &&& members_of(archive, id)[2].0 == Part::Pathname ==> emitted(yields[0]) == Some(
                of_asset,
            )
        }),
{
    let members = members_of(archive, id);
    let name = resolved_name(text_of(pathname).unwrap());
    let yields = yields_of(archive, id);
    let of_asset = (name, asset);
    let of_metadata = (name + meta_suffix(), metadata);
    let a = (Part::Asset, asset);
    let m = (Part::AssetMeta, metadata);
    let p = (Part::Pathname, pathname);
    lemma_yields_are_local(Map::empty(), archive, 0, id);
    lemma_run_three(id, initial_status(), members);
    let ia = choose|i: int| 0 <= i < 3 && members[i] == a;
    let im = choose|i: int| 0 <= i < 3 && members[i] == m;
    let ip = choose|i: int| 0 <= i < 3 && members[i] == p;
    assert(ia != im && im != ip && ia != ip);
    let first = member_step(id, initial_status(), members[0]);
    let second = member_step(id, first.0, members[1]);
    let third = member_step(id, second.0, members[2]);
    assert(yields == first.1 + second.1 + third.1);
    if ip == 0 {
        assert(first.1 =~= Seq::empty());
    } else if ip == 1 {
        assert(first.1 =~= Seq::empty());
        assert(second.1.len() == 1);
    } else {
        assert(first.1 =~= Seq::empty());
        assert(second.1 =~= Seq::empty());
        assert(third.1.len() == 2);
    }
    assert(yields.len() == 2);
    assert(emitted(yields[0]) == Some(of_asset) || emitted(yields[0]) == Some(of_metadata));
    assert(output_set(yields) =~= set![of_asset, of_metadata]);
}

/// An identifier with an asset and a readable pathname, and no metadata, yields exactly one
/// output: the asset under the resolved path.
pub proof fn lemma_asset_without_metadata(
    archive: Seq<RawEntryView>,
    id: Seq<u8>,
    asset: Seq<u8>,
    pathname: Seq<u8>,
)
    requires
        text_of(pathname) is Some,
        are_two(members_of(archive, id), (Part::Asset, asset), (Part::Pathname, pathname)),
    ensures
        yields_of(archive, id).len() == 1,
        emitted(yields_of(archive, id)[0]) == Some(
            (resolved_name(text_of(pathname).unwrap()), asset),
        ),
{
    let members = members_of(archive, id);
    lemma_yields_are_local(Map::empty(), archive, 0, id);
    lemma_run_two(id, initial_status(), members);
    let ia = choose|i: int| 0 <= i < 2 && members[i] == (Part::Asset, asset);
    let ip = choose|i: int| 0 <= i < 2 && members[i] == (Part::Pathname, pathname);
    assert(ia != ip);
    let first = member_step(id, initial_status(), members[0]);
    let second = member_step(id, first.0, members[1]);
    if ip == 0 {
        assert(first.1 =~= Seq::empty());
    } else {
        assert(first.1 =~= Seq::empty());
        assert(second.1.len() == 1);
    }
}

/// An identifier with metadata and a readable pathname, and no asset, yields exactly one
/// output: the metadata under the resolved path with `.meta` added.
pub proof fn lemma_metadata_without_asset(
    archive: Seq<RawEntryView>,
    id: Seq<u8>,
    metadata: Seq<u8>,
    pathname: Seq<u8>,
)
    requires
        text_of(pathname) is Some,
        are_two(members_of(archive, id), (Part::AssetMeta, metadata), (Part::Pathname, pathname)),
    ensures
        yields_of(archive, id).len() == 1,
        emitted(yields_of(archive, id)[0]) == Some(
            (
                resolved_name(text_of(pathname).unwrap()) + meta_suffix(),
                metadata,
            ),
        ),
{
    let members = members_of(archive, id);
    lemma_yields_are_local(Map::empty(), archive, 0, id);
    lemma_run_two(id, initial_status(), members);
    let im = choose|i: int| 0 <= i < 2 && members[i] == (Part::AssetMeta, metadata);
    let ip = choose|i: int| 0 <= i < 2 && members[i] == (Part::Pathname, pathname);
    assert(im != ip);
    let first = member_step(id, initial_status(), members[0]);
    let second = member_step(id, first.0, members[1]);
    if ip == 0 {
        assert(first.1 =~= Seq::empty());
    } else {
        assert(first.1 =~= Seq::empty());
        assert(second.1.len() == 1);
    }
}

/// Whether none of `members` is a pathname that can be read.
pub open spec fn no_readable_pathname(members: Seq<MemberOf>) -> bool {
    forall|i: int|
        0 <= i < members.len() && (#[trigger] members[i]).0 == Part::Pathname ==> text_of(
            members[i].1,
        ) is None
}

/// Whether none of `members` is an asset or its metadata.
pub open spec fn no_content(members: Seq<MemberOf>) -> bool {
    forall|i: int| 0 <= i < members.len() ==> (#[trigger] members[i]).0 == Part::Pathname
}

/// Whether none of `yields` is an output.
pub open spec fn no_output(yields: Seq<Yielded>) -> bool {
    forall|k: int| 0 <= k < yields.len() ==> (#[trigger] yields[k]) is Err
}

/// From a state without a known path, members without a readable pathname yield no output.
proof fn lemma_run_without_path(id: Seq<u8>, status: StatusView<Seq<u8>>, members: Seq<MemberOf>)
    requires
        !(status is KnownPath),
        no_readable_pathname(members),
    ensures
        no_output(member_run(id, status, members)),
    decreases members.len(),
{
    if members.len() > 0 {
        let (next, yields) = member_step(id, status, members[0]);
        let rest = members.skip(1);
        assert forall|i: int| 0 <= i < rest.len() && (#[trigger] rest[i]).0
            == Part::Pathname implies text_of(rest[i].1) is None by {
            assert(rest[i] == members[i + 1]);
        }
        lemma_run_without_path(id, next, rest);
    }
}

/// From a state that holds no part, members that are all pathnames yield no output.
proof fn lemma_run_without_content(id: Seq<u8>, status: StatusView<Seq<u8>>, members: Seq<MemberOf>)
    requires
        status is AwaitingPath ==> status == initial_status::<Seq<u8>>(),
        no_content(members),
    ensures
        no_output(member_run(id, status, members)),
    decreases members.len(),
{
    if members.len() > 0 {
        let (next, yields) = member_step(id, status, members[0]);
        let rest = members.skip(1);
        assert forall|i: int| 0 <= i < rest.len() implies (#[trigger] rest[i]).0
            == Part::Pathname by {
            assert(rest[i] == members[i + 1]);
        }
        assert(yields.len() <= 1) by {
            if text_of(members[0].1) is Some {
                assert(released(status, resolved_name(text_of(members[0].1).unwrap()))
                    =~= Seq::empty());
            }
        }
        lemma_run_without_content(id, next, rest);
    }
}

/// An identifier none of whose pathname members can be read yields no output, wherever its
/// asset and its metadata stand.
pub proof fn lemma_unreadable_pathname(archive: Seq<RawEntryView>, id: Seq<u8>)
    requires
        no_readable_pathname(members_of(archive, id)),
    ensures
        no_output(yields_of(archive, id)),
        output_set(yields_of(archive, id)) == Set::<(Seq<char>, Seq<u8>)>::empty(),
{
    lemma_yields_are_local(Map::empty(), archive, 0, id);
    lemma_run_without_path(id, initial_status(), members_of(archive, id));
    assert(output_set(yields_of(archive, id)) =~= Set::<(Seq<char>, Seq<u8>)>::empty());
}

/// An identifier with neither an asset nor metadata yields no output, whatever its pathname.
pub proof fn lemma_pathname_alone(archive: Seq<RawEntryView>, id: Seq<u8>)
    requires
        no_content(members_of(archive, id)),
    ensures
        no_output(yields_of(archive, id)),
        output_set(yields_of(archive, id)) == Set::<(Seq<char>, Seq<u8>)>::empty(),
{
    lemma_yields_are_local(Map::empty(), archive, 0, id);
    lemma_run_without_content(id, initial_status(), members_of(archive, id));
    assert(output_set(yields_of(archive, id)) =~= Set::<(Seq<char>, Seq<u8>)>::empty());
}

/// Order independence: two archives that hold the same asset, metadata and readable pathname
/// of an identifier, each once and in whatever order, put out the same paths with the same
/// bytes for it.
pub proof fn lemma_order_independent(
    first: Seq<RawEntryView>,
    second: Seq<RawEntryView>,
    id: Seq<u8>,
    asset: Seq<u8>,
    metadata: Seq<u8>,
    pathname: Seq<u8>,
)
    requires
        text_of(pathname) is Some,
        are_three(
            members_of(first, id),
            (Part::Asset, asset),
            (Part::AssetMeta, metadata),
            (Part::Pathname, pathname),
        ),
        are_three(
            members_of(second, id),
            (Part::Asset, asset),
            (Part::AssetMeta, metadata),
            (Part::Pathname, pathname),
        ),
    ensures
        output_set(yields_of(first, id)) == output_set(yields_of(second, id)),
{
    lemma_complete_identifier(first, id, asset, metadata, pathname);
    lemma_complete_identifier(second, id, asset, metadata, pathname);
}

/// The preview image of an identifier yields nothing, no failure either, and changes nothing.
pub proof fn lemma_preview_is_silent(paths: Paths, is_file: bool, path: Seq<u8>, content: Seq<u8>)
    requires
        classify_spec(path) == MemberView::Preview,
    ensures
        step(paths, RawEntryView::Entry { is_file, path: Some(path), content }) == (Stepped {
            paths,
            yields: Seq::empty(),
        }),
{
}

/// Under whatever identifier a preview image lies, it yields nothing, no failure either, and
/// changes nothing.
pub proof fn lemma_preview_under_identifier(paths: Paths, id: Seq<u8>, content: Seq<u8>)
    requires
        is_plain(id),
    ensures
        step(
            paths,
            RawEntryView::Entry {
                is_file: true,
                path: Some(member_path(id, preview_name())),
                content,
            },
        ) == (Stepped { paths, yields: Seq::empty() }),
{
    assert(preview_name()[0] != crate::member::DOT);
    lemma_member_path(id, preview_name());
}

/// A pathname whose text does not begin with `Assets/` is kept as it is: the identifier gets
/// the whole text as its path, and what was kept for it is released under that path.
pub proof fn lemma_unprefixed_name_kept(
    paths: Paths,
    path: Seq<u8>,
    content: Seq<u8>,
    id: Seq<u8>,
)
    requires
        classify_spec(path) == (MemberView::Part { id, part: Part::Pathname }),
        text_of(content) is Some,
        !has_assets_prefix(text_of(content).unwrap()),
    ensures
        ({
            let stepped = step(
                paths,
                RawEntryView::Entry { is_file: true, path: Some(path), content },
            );
            let text = text_of(content).unwrap();
            &&& status_of(stepped.paths, id) == StatusView::<Seq<u8>>::KnownPath(text)
            &&& stepped.yields == buffered_all(released(status_of(paths, id), text))
        }),
{
}

/// No identifier goes back: one that has left the state of awaiting its path never awaits
/// it again.
pub proof fn lemma_never_regresses(paths: Paths, entry: RawEntryView, id: Seq<u8>)
    requires
        !(status_of(paths, id) is AwaitingPath),
    ensures
        !(status_of(step(paths, entry).paths, id) is AwaitingPath),
{
}

/// The table only grows: an identifier that it holds stays in it.
pub proof fn lemma_table_grows(paths: Paths, entry: RawEntryView, id: Seq<u8>)
    requires
        paths.contains_key(id),
    ensures
        step(paths, entry).paths.contains_key(id),
{
}

/// An identifier in error yields no output for its asset or its metadata, and stays in error.
pub proof fn lemma_error_is_silent(
    paths: Paths,
    path: Seq<u8>,
    content: Seq<u8>,
    id: Seq<u8>,
    part: Part,
)
    requires
        classify_spec(path) == (MemberView::Part { id, part }),
        part != Part::Pathname,
        status_of(paths, id) is Error,
    ensures
        step(paths, RawEntryView::Entry { is_file: true, path: Some(path), content }) == (Stepped {
            paths,
            yields: Seq::empty(),
        }),
{
}

/// Whether the entry of `archive` at `i` holds the member `part` of `id`, with `content`.
pub open spec fn holds_member(
    archive: Seq<RawEntryView>,
    i: int,
    id: Seq<u8>,
    part: Part,
    content: Seq<u8>,
) -> bool {
    0 <= i < archive.len() && member_of(archive[i], id) == Some((part, content))
}

/// Whether one of the first `upto` entries of `archive` holds the member `part` of `id`, with
/// `content`.
pub open spec fn kept_from(
    archive: Seq<RawEntryView>,
    upto: int,
    id: Seq<u8>,
    part: Part,
    content: Seq<u8>,
) -> bool {
    exists|i: int| i < upto && holds_member(archive, i, id, part, content)
}

/// Whether one of the first `upto` entries of `archive` holds a pathname of `id` whose text
/// resolves to `name`.
pub open spec fn named_from(
    archive: Seq<RawEntryView>,
    upto: int,
    id: Seq<u8>,
    name: Seq<char>,
) -> bool {
    exists|j: int, pathname: Seq<u8>|
        j < upto && #[trigger] holds_member(archive, j, id, Part::Pathname, pathname) && text_of(
            pathname,
        ) is Some && name == resolved_name(text_of(pathname).unwrap())
}

/// Whether an output has its source among the first `upto` entries of `archive`: its bytes
/// are the content of an asset or of metadata of some identifier, and its path is what a
/// pathname of the same identifier resolves to, with `.meta` added for metadata.
pub open spec fn has_source(archive: Seq<RawEntryView>, upto: int, entry: EntryView) -> bool {
    exists|id: Seq<u8>, part: Part, name: Seq<char>|
        part != Part::Pathname && #[trigger] kept_from(
            archive,
            upto,
            id,
            part,
            entry.content.bytes(),
        ) && #[trigger] named_from(archive, upto, id, name) && entry.path == output_path(name, part)
}

/// Whether what the table holds for `id` comes from the first `upto` entries of `archive`.
pub open spec fn faithful_for(
    paths: Paths,
    archive: Seq<RawEntryView>,
    upto: int,
    id: Seq<u8>,
) -> bool {
    match status_of(paths, id) {
        StatusView::AwaitingPath(parts) => {
            &&& parts.asset is Some ==> kept_from(
                archive,
                upto,
                id,
                Part::Asset,
                parts.asset.unwrap(),
            )
            &&& parts.metadata is Some ==> kept_from(
                archive,
                upto,
                id,
                Part::AssetMeta,
                parts.metadata.unwrap(),
            )
        },
        StatusView::KnownPath(name) => named_from(archive, upto, id, name),
        StatusView::Error => true,
    }
}

/// Whether all that the table holds comes from the first `upto` entries of `archive`.
pub open spec fn faithful(paths: Paths, archive: Seq<RawEntryView>, upto: int) -> bool {
    forall|id: Seq<u8>| #[trigger] faithful_for(paths, archive, upto, id)
}

/// Whether every output among `yields` has its source among the first `upto` entries.
pub open spec fn all_sourced(yields: Seq<Yielded>, archive: Seq<RawEntryView>, upto: int) -> bool {
    forall|k: int|
        0 <= k < yields.len() && (#[trigger] yields[k]) is Ok ==> has_source(
            archive,
            upto,
            yields[k]->Ok_0,
        )
}

/// What comes from the first entries of an archive comes from any longer run of them.
proof fn lemma_sources_stay(archive: Seq<RawEntryView>, upto: int, later: int)
    requires
        upto <= later,
    ensures
        forall|id: Seq<u8>, part: Part, content: Seq<u8>| #[trigger]
            kept_from(archive, upto, id, part, content) ==> kept_from(
                archive,
                later,
                id,
                part,
                content,
            ),
        forall|id: Seq<u8>, name: Seq<char>| #[trigger]
            named_from(archive, upto, id, name) ==> named_from(archive, later, id, name),
        forall|entry: EntryView| #[trigger]
            has_source(archive, upto, entry) ==> has_source(archive, later, entry),
{
    assert forall|id: Seq<u8>, part: Part, content: Seq<u8>| #[trigger]
        kept_from(archive, upto, id, part, content) implies kept_from(
        archive,
        later,
        id,
        part,
        content,
    ) by {
        let i = choose|i: int| i < upto && holds_member(archive, i, id, part, content);
        assert(i < later && holds_member(archive, i, id, part, content));
    }
    assert forall|id: Seq<u8>, name: Seq<char>| #[trigger]
        named_from(archive, upto, id, name) implies named_from(archive, later, id, name) by {
        let (j, pathname) = choose|j: int, pathname: Seq<u8>|
            j < upto && #[trigger] holds_member(archive, j, id, Part::Pathname, pathname)
                && text_of(pathname) is Some && name == resolved_name(text_of(pathname).unwrap());
        assert(j < later && holds_member(archive, j, id, Part::Pathname, pathname));
    }
    assert forall|entry: EntryView| #[trigger] has_source(archive, upto, entry) implies has_source(
        archive,
        later,
        entry,
    ) by {
        let (id, part, name) = choose|id: Seq<u8>, part: Part, name: Seq<char>|
            part != Part::Pathname && #[trigger] kept_from(
                archive,
                upto,
                id,
                part,
                entry.content.bytes(),
            ) && #[trigger] named_from(archive, upto, id, name) && entry.path == output_path(
                name,
                part,
            );
        assert(kept_from(archive, later, id, part, entry.content.bytes()));
        assert(named_from(archive, later, id, name));
    }
}

/// One entry keeps the table faithful, and what it yields has its source.
proof fn lemma_step_is_faithful(paths: Paths, archive: Seq<RawEntryView>, pos: int)
    requires
        0 <= pos < archive.len(),
        faithful(paths, archive, pos),
    ensures
        faithful(step(paths, archive[pos]).paths, archive, pos + 1),
        all_sourced(step(paths, archive[pos]).yields, archive, pos + 1),
{
    let entry = archive[pos];
    let stepped = step(paths, entry);
    lemma_sources_stay(archive, pos, pos + 1);
    assert forall|id: Seq<u8>| #[trigger]
        faithful_for(stepped.paths, archive, pos + 1, id) by {
        assert(faithful_for(paths, archive, pos, id));
        match member_of(entry, id) {
            Some((part, content)) => {
                lemma_step_of_member(paths, entry, id);
                assert(holds_member(archive, pos, id, part, content));
                assert(kept_from(archive, pos + 1, id, part, content));
                if part == Part::Pathname && text_of(content) is Some {
                    assert(named_from(
                        archive,
                        pos + 1,
                        id,
                        resolved_name(text_of(content).unwrap()),
                    ));
                }
            },
            None => {
                lemma_step_of_other(paths, entry, id);
            },
        }
    }
    assert forall|k: int|
        0 <= k < stepped.yields.len() && (#[trigger] stepped.yields[k]) is Ok implies has_source(
        archive,
        pos + 1,
        stepped.yields[k]->Ok_0,
    ) by {
        let out = stepped.yields[k]->Ok_0;
        match entry {
            RawEntryView::Entry { is_file: true, path: Some(p), content } => {
                match classify_spec(p) {
                    MemberView::Part { id, part } => {
                        assert(member_of(entry, id) == Some((part, content)));
                        assert(holds_member(archive, pos, id, part, content));
                        assert(faithful_for(paths, archive, pos, id));
                        if part == Part::Pathname {
                            let name = resolved_name(text_of(content).unwrap());
                            assert(named_from(archive, pos + 1, id, name));
                            let ready = released(status_of(paths, id), name);
                            assert(stepped.yields == buffered_all(ready));
                            let parts = status_of(paths, id)->AwaitingPath_0;
                            if parts.asset is Some && k == 0 {
                                assert(kept_from(
                                    archive,
                                    pos + 1,
                                    id,
                                    Part::Asset,
                                    out.content.bytes(),
                                ));
                                assert(out.path == output_path(name, Part::Asset));
                            } else {
                                assert(kept_from(
                                    archive,
                                    pos + 1,
                                    id,
                                    Part::AssetMeta,
                                    out.content.bytes(),
                                ));
                                assert(out.path == output_path(name, Part::AssetMeta));
                            }
                        } else {
                            let name = status_of(paths, id)->KnownPath_0;
                            assert(kept_from(archive, pos + 1, id, part, out.content.bytes()));
                            assert(named_from(archive, pos + 1, id, name));
                            assert(out.path == output_path(name, part));
                        }
                    },
                    _ => {},
                }
            },
            _ => {},
        }
    }
}

/// From a faithful table on, every output of the trace has its source in the archive.
proof fn lemma_trace_is_sourced(paths: Paths, archive: Seq<RawEntryView>, pos: nat)
    requires
        pos <= archive.len(),
        faithful(paths, archive, pos as int),
    ensures
        all_sourced(trace_from(paths, archive, pos), archive, archive.len() as int),
    decreases archive.len() - pos,
{
    if pos < archive.len() {
        let stepped = step(paths, archive[pos as int]);
        lemma_step_is_faithful(paths, archive, pos as int);
        lemma_trace_is_sourced(stepped.paths, archive, pos + 1);
        lemma_sources_stay(archive, pos as int + 1, archive.len() as int);
        let rest = trace_from(stepped.paths, archive, pos + 1);
        let all = stepped.yields + rest;
        assert forall|k: int| 0 <= k < all.len() && (#[trigger] all[k]) is Ok implies has_source(
            archive,
            archive.len() as int,
            all[k]->Ok_0,
        ) by {
            if k < stepped.yields.len() {
                assert(all[k] == stepped.yields[k]);
            } else {
                assert(all[k] == rest[k - stepped.yields.len()]);
            }
        }
    }
}

/// Content equivalence: every output of a pass has the bytes of an asset or of metadata that
/// the archive holds for some identifier, whether they were kept in a buffer or passed on
/// directly, and its path is what a pathname of that identifier resolves to, with `.meta`
/// added for metadata.
pub proof fn lemma_content_equivalence(archive: Seq<RawEntryView>, k: int)
    requires
        0 <= k < trace(archive).len(),
        trace(archive)[k] is Ok,
    ensures
        has_source(archive, archive.len() as int, trace(archive)[k]->Ok_0),
{
    assert forall|id: Seq<u8>| #[trigger] faithful_for(Map::empty(), archive, 0, id) by {}
    lemma_trace_is_sourced(Map::empty(), archive, 0);
}

/// What an identifier yields is part of the trace: each of its yields is handed out by the
/// pass.
pub proof fn lemma_yields_in_trace(paths: Paths, archive: Seq<RawEntryView>, pos: nat, id: Seq<u8>)
    ensures
        forall|k: int|
            0 <= k < yields_from(paths, archive, pos, id).len() ==> trace_from(
                paths,
                archive,
                pos,
            ).contains(#[trigger] yields_from(paths, archive, pos, id)[k]),
    decreases archive.len() - pos,
{
    if pos < archive.len() {
        let stepped = step(paths, archive[pos as int]);
        let rest = yields_from(stepped.paths, archive, pos + 1, id);
        let all = trace_from(paths, archive, pos);
        let tail = trace_from(stepped.paths, archive, pos + 1);
        lemma_yields_in_trace(stepped.paths, archive, pos + 1, id);
        let own = yields_from(paths, archive, pos, id);
        assert forall|k: int| 0 <= k < own.len() implies all.contains(#[trigger] own[k]) by {
            if member_of(archive[pos as int], id) is Some && k < stepped.yields.len() {
                assert(all[k] == own[k]);
            } else {
                let h = if member_of(archive[pos as int], id) is Some {
                    k - stepped.yields.len()
                } else {
                    k
                };
                assert(own[k] == rest[h]);
                assert(tail.contains(rest[h]));
                let t = choose|t: int| 0 <= t < tail.len() && tail[t] == rest[h];
                assert(all[stepped.yields.len() + t] == tail[t]);
            }
        }
    }
}

} // verus!
