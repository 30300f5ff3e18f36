//! Paths as byte strings, in the ways one graph's namespace needs them.

use crate::bytes::{append, copied, join, joined, literal, text, texts};
use vstd::prelude::*;
use vstd::string::*;

verus! {

/// Whether a path says where it is from the root.
pub open spec fn absolute(path: Seq<u8>) -> bool {
    path.len() > 0 && path[0] == 0x2f
}

/// Whether a path says where it is from the root.
pub fn is_absolute(path: &[u8]) -> (answer: bool)
    ensures
        answer == absolute(path@),
{
    path.len() > 0 && path[0] == 0x2f
}

/// `name` as it is found from `base`: the name itself where it is absolute,
/// and otherwise the two with one separator between them.
pub open spec fn joined_path(base: Seq<u8>, name: Seq<u8>) -> Seq<u8> {
    if absolute(name) || base.len() == 0 {
        name
    } else if base.last() == 0x2f {
        base + name
    } else {
        base.push(0x2f) + name
    }
}

/// `name` as it is found from `base`.
pub fn join_path(base: &[u8], name: &[u8]) -> (path: Vec<u8>)
    ensures
        path@ == joined_path(base@, name@),
{
    if is_absolute(name) || base.len() == 0 {
        return copied(name);
    }
    let mut path: Vec<u8> = copied(base);
    if base[base.len() - 1] != 0x2f {
        path.push(0x2f);
    }
    append(&mut path, name);
    path
}

/// The pieces of a path between its separators, from `at`, `piece` being what
/// the first of them already holds. Empty pieces and `.` are left out.
pub open spec fn pieces_from(path: Seq<u8>, at: int, piece: Seq<u8>) -> Seq<Seq<u8>>
    decreases path.len() - at,
{
    if at < 0 || at >= path.len() {
        kept_piece(piece)
    } else if path[at] == 0x2f {
        kept_piece(piece) + pieces_from(path, at + 1, Seq::empty())
    } else {
        pieces_from(path, at + 1, piece.push(path[at]))
    }
}

/// A piece as a list of one, or of none where it says nothing.
pub open spec fn kept_piece(piece: Seq<u8>) -> Seq<Seq<u8>> {
    if piece.len() == 0 || piece == seq![0x2eu8] {
        Seq::empty()
    } else {
        seq![piece]
    }
}

/// The piece that backs up over the one before it.
pub open spec fn up() -> Seq<u8> {
    seq![0x2eu8, 0x2eu8]
}

/// The pieces with every `..` that has a piece to back up over taken out with
/// it.
pub open spec fn settled(pieces: Seq<Seq<u8>>) -> Seq<Seq<u8>>
    decreases pieces.len(),
{
    if pieces.len() == 0 {
        Seq::empty()
    } else {
        let before = settled(pieces.drop_last());
        if pieces.last() == up() && before.len() > 0 && before.last() != up() {
            before.drop_last()
        } else {
            before.push(pieces.last())
        }
    }
}

/// The one spelling a graph holds a path under.
pub open spec fn canonical(path: Seq<u8>) -> Seq<u8> {
    let pieces = settled(pieces_from(path, 0, Seq::empty()));
    if absolute(path) {
        seq![0x2fu8] + joined(pieces, seq![0x2fu8])
    } else if pieces.len() == 0 {
        seq![0x2eu8]
    } else {
        joined(pieces, seq![0x2fu8])
    }
}

/// Close one piece of a path.
fn keep_piece(pieces: &mut Vec<Vec<u8>>, piece: Vec<u8>)
    ensures
        texts(final(pieces)@) == texts(old(pieces)@) + kept_piece(piece@),
{
    let ghost before = texts(pieces@);
    let ghost held = piece@;
    if piece.len() == 0 || (piece.len() == 1 && piece[0] == 0x2e) {
        assert(piece.len() == 1 ==> piece@ =~= seq![0x2eu8]);
        assert(before + Seq::<Seq<u8>>::empty() =~= before);
    } else {
        assert(held != seq![0x2eu8]) by {
            if held == seq![0x2eu8] {
                assert(held.len() == 1 && held[0] == 0x2e);
            }
        }
        pieces.push(piece);
        assert(texts(pieces@) =~= before + seq![held]);
    }
}

/// The pieces of a path between its separators.
fn split_pieces(path: &[u8]) -> (pieces: Vec<Vec<u8>>)
    ensures
        texts(pieces@) == pieces_from(path@, 0, Seq::empty()),
{
    let mut pieces: Vec<Vec<u8>> = Vec::new();
    let mut piece: Vec<u8> = Vec::new();
    let mut at: usize = 0;
    assert(texts(pieces@) + pieces_from(path@, 0, piece@) =~= pieces_from(path@, 0, Seq::empty()));
    while at < path.len()
        invariant
            at <= path@.len(),
            texts(pieces@) + pieces_from(path@, at as int, piece@) == pieces_from(
                path@,
                0,
                Seq::empty(),
            ),
        decreases path@.len() - at,
    {
        let ghost known = texts(pieces@);
        let ghost held = piece@;
        if path[at] == 0x2f {
            keep_piece(&mut pieces, piece);
            piece = Vec::new();
            assert(texts(pieces@) + pieces_from(path@, at + 1, Seq::empty()) =~= known + (
            kept_piece(held) + pieces_from(path@, at + 1, Seq::empty())));
            assert(piece@ =~= Seq::empty());
        } else {
            piece.push(path[at]);
        }
        at += 1;
    }
    keep_piece(&mut pieces, piece);
    pieces
}

/// Write a path in the one spelling a graph holds it under.
pub fn canonpath(path: &[u8]) -> (spelled: Vec<u8>)
    ensures
        spelled@ == canonical(path@),
{
    let pieces: Vec<Vec<u8>> = split_pieces(path);
    let ghost all = texts(pieces@);
    let mut stack: Vec<Vec<u8>> = Vec::new();
    let mut at: usize = 0;
    assert(all.take(0) =~= Seq::empty());
    assert(texts(stack@) =~= Seq::empty());
    while at < pieces.len()
        invariant
            at <= pieces@.len(),
            all == texts(pieces@),
            texts(stack@) == settled(all.take(at as int)),
        decreases pieces@.len() - at,
    {
        let ghost next = all.take(at as int + 1);
        let ghost before = texts(stack@);
        assert(next.drop_last() =~= all.take(at as int));
        assert(next.last() == pieces@[at as int]@);
        let backs: bool = is_up(&pieces[at]);
        if backs && stack.len() > 0 && !is_up(&stack[stack.len() - 1]) {
            assert(before.last() == stack@.last()@);
            let _ = stack.pop();
            assert(texts(stack@) =~= before.drop_last());
        } else {
            assert(stack@.len() > 0 ==> before.last() == stack@.last()@);
            stack.push(copied(&pieces[at]));
            assert(texts(stack@) =~= before.push(pieces@[at as int]@));
        }
        at += 1;
    }
    assert(all.take(at as int) =~= all);
    let mut slash: Vec<u8> = Vec::new();
    slash.push(0x2f);
    assert(slash@ =~= seq![0x2fu8]);
    let rest: Vec<u8> = join(&stack, &slash);
    if is_absolute(path) {
        append(&mut slash, &rest);
        return slash;
    }
    if stack.len() == 0 {
        let mut here: Vec<u8> = Vec::new();
        here.push(0x2e);
        assert(here@ =~= seq![0x2eu8]);
        return here;
    }
    rest
}

fn is_up(piece: &[u8]) -> (answer: bool)
    ensures
        answer == (piece@ == up()),
{
    let answer: bool = piece.len() == 2 && piece[0] == 0x2e && piece[1] == 0x2e;
    if answer {
        assert(piece@ =~= up());
    } else {
        assert(up().len() == 2 && up()[0] == 0x2e && up()[1] == 0x2e);
    }
    answer
}

/// The graph path a unit's name reaches: qualified by where the unit was read
/// unless that is where the build runs or the name is absolute, and canonical.
pub open spec fn graph_path(prefix: Seq<u8>, name: Seq<u8>) -> Seq<u8> {
    canonical(joined_path(prefix, name))
}

/// The graph path a unit's declared name reaches.
pub fn qualified(prefix: &[u8], name: &[u8]) -> (path: Vec<u8>)
    ensures
        path@ == graph_path(prefix@, name@),
{
    canonpath(&join_path(prefix, name))
}

/// Whether a path spells the standard input: one dash, with nothing behind it
/// but separators and `.`.
pub open spec fn only_a_dash(path: Seq<u8>) -> bool {
    &&& path.len() > 0
    &&& path[0] == 0x2d
    &&& path.len() > 1 ==> path[1] == 0x2f
    &&& forall|i: int| 1 <= i < path.len() ==> #[trigger] path[i] == 0x2f || path[i] == 0x2e
    &&& forall|i: int|
        1 <= i < path.len() - 1 ==> !(#[trigger] path[i] == 0x2e && path[i + 1] == 0x2e)
}

/// Whether a makefile's name is the one that stands for the standard input.
pub fn is_standard_input(makefile: &[u8]) -> (answer: bool)
    ensures
        answer == only_a_dash(makefile@),
{
    if makefile.len() == 0 || makefile[0] != 0x2d {
        return false;
    }
    if makefile.len() > 1 && makefile[1] != 0x2f {
        return false;
    }
    let mut at: usize = 1;
    while at < makefile.len()
        invariant
            1 <= at <= makefile@.len(),
            makefile@[0] == 0x2d,
            forall|i: int|
                1 <= i < at ==> #[trigger] makefile@[i] == 0x2f || makefile@[i] == 0x2e,
            forall|i: int|
                1 <= i < at - 1 ==> !(#[trigger] makefile@[i] == 0x2e && makefile@[i + 1] == 0x2e),
        decreases makefile@.len() - at,
    {
        if makefile[at] != 0x2f && makefile[at] != 0x2e {
            assert(makefile@[at as int] != 0x2f);
            return false;
        }
        if at > 1 && makefile[at] == 0x2e && makefile[at - 1] == 0x2e {
            assert(makefile@[at - 1] == 0x2e);
            return false;
        }
        at += 1;
    }
    true
}

/// The directory named for the cache: the user's cache directory where it is
/// absolute, and `.cache` in the home directory otherwise.
pub open spec fn cache_root(cache_home: Option<Seq<u8>>, home: Option<Seq<u8>>) -> Option<
    Seq<u8>,
> {
    match cache_home {
        Some(cache) if absolute(cache) => Some(joined_path(cache, text("ronin"))),
        _ => match home {
            Some(home) => Some(joined_path(joined_path(home, text(".cache")), text("ronin"))),
            None => None,
        },
    }
}

/// The cache root the two names settle on.
///
/// A cache directory that is not absolute is passed over rather than resolved
/// against the working directory.
pub fn root_of(cache_home: Option<&[u8]>, home: Option<&[u8]>) -> (root: Option<Vec<u8>>)
    ensures
        crate::bytes::maybe(root) == cache_root(
            match cache_home {
                Some(held) => Some(held@),
                None => None,
            },
            match home {
                Some(held) => Some(held@),
                None => None,
            },
        ),
{
    if let Some(cache) = cache_home {
        if is_absolute(cache) {
            return Some(join_path(cache, "ronin".as_bytes()));
        }
    }
    match home {
        Some(home) => {
            let cache: Vec<u8> = join_path(home, ".cache".as_bytes());
            Some(join_path(&cache, "ronin".as_bytes()))
        },
        None => None,
    }
}

/// A piece that says something, with no separator in it.
pub open spec fn sound_piece(piece: Seq<u8>) -> bool {
    piece.len() > 0 && piece != seq![0x2eu8] && forall|i: int|
        0 <= i < piece.len() ==> #[trigger] piece[i] != 0x2f
}

/// Whether every piece of a list says something.
pub open spec fn sound_pieces(pieces: Seq<Seq<u8>>) -> bool {
    forall|i: int| 0 <= i < pieces.len() ==> sound_piece(#[trigger] pieces[i])
}

proof fn pieces_are_sound(path: Seq<u8>, at: int, piece: Seq<u8>)
    requires
        0 <= at <= path.len(),
        forall|i: int| 0 <= i < piece.len() ==> #[trigger] piece[i] != 0x2f,
    ensures
        sound_pieces(pieces_from(path, at, piece)),
    decreases path.len() - at,
{
    if at < path.len() {
        if path[at] == 0x2f {
            pieces_are_sound(path, at + 1, Seq::empty());
        } else {
            pieces_are_sound(path, at + 1, piece.push(path[at]));
        }
    }
}

/// A `..` stands only in front, or behind another.
pub open spec fn backed_up(pieces: Seq<Seq<u8>>) -> bool {
    forall|i: int| 0 < i < pieces.len() && #[trigger] pieces[i] == up() ==> pieces[i - 1] == up()
}

proof fn settling_settles(pieces: Seq<Seq<u8>>)
    requires
        sound_pieces(pieces),
    ensures
        sound_pieces(settled(pieces)),
        backed_up(settled(pieces)),
    decreases pieces.len(),
{
    if pieces.len() > 0 {
        let front = pieces.drop_last();
        settling_settles(front);
        let before = settled(front);
        let after = settled(pieces);
        if pieces.last() == up() && before.len() > 0 && before.last() != up() {
            assert forall|i: int| 0 < i < after.len() && #[trigger] after[i]
                == up() implies after[i - 1] == up() by {
                assert(before[i] == up());
            }
        } else {
            assert(sound_piece(pieces.last()));
            assert forall|i: int| 0 < i < after.len() && #[trigger] after[i]
                == up() implies after[i - 1] == up() by {
                if i < before.len() {
                    assert(before[i] == up());
                }
            }
        }
    }
}

proof fn settled_stays(pieces: Seq<Seq<u8>>)
    requires
        backed_up(pieces),
    ensures
        settled(pieces) == pieces,
    decreases pieces.len(),
{
    if pieces.len() > 0 {
        let front = pieces.drop_last();
        assert(backed_up(front)) by {
            assert forall|i: int| 0 < i < front.len() && #[trigger] front[i]
                == up() implies front[i - 1] == up() by {
                assert(pieces[i] == up());
            }
        }
        settled_stays(front);
        if pieces.last() == up() && front.len() > 0 {
            assert(pieces[pieces.len() - 1] == up());
            assert(front.last() == up());
        }
        assert(front.push(pieces.last()) =~= pieces);
    }
}

proof fn one_piece_is_read(path: Seq<u8>, at: int, held: Seq<u8>, piece: Seq<u8>)
    requires
        0 <= at,
        at + piece.len() <= path.len(),
        path.subrange(at, at + piece.len()) == piece,
        forall|i: int| 0 <= i < piece.len() ==> #[trigger] piece[i] != 0x2f,
    ensures
        pieces_from(path, at, held) == pieces_from(path, at + piece.len(), held + piece),
    decreases piece.len(),
{
    if piece.len() == 0 {
        assert(held + piece =~= held);
    } else {
        assert(path.subrange(at, at + piece.len())[0] == path[at]);
        assert(piece[0] != 0x2f);
        let rest = piece.drop_first();
        assert(path.subrange(at + 1, at + 1 + rest.len()) =~= rest) by {
            assert forall|i: int| 0 <= i < rest.len() implies path[at + 1 + i] == rest[i] by {
                assert(path.subrange(at, at + piece.len())[i + 1] == piece[i + 1]);
            }
        }
        assert forall|i: int| 0 <= i < rest.len() implies #[trigger] rest[i] != 0x2f by {
            assert(piece[i + 1] != 0x2f);
        }
        one_piece_is_read(path, at + 1, held.push(path[at]), rest);
        assert(held.push(path[at]) + rest =~= held + piece);
    }
}

proof fn pieces_are_read(start: Seq<u8>, pieces: Seq<Seq<u8>>, tail: Seq<u8>)
    requires
        pieces.len() > 0,
        sound_pieces(pieces),
    ensures
        ({
            let spelled = joined(pieces, seq![0x2fu8]);
            pieces_from(start + spelled + tail, start.len() as int, Seq::empty())
                == pieces.drop_last() + pieces_from(
                start + spelled + tail,
                (start.len() + spelled.len()) as int,
                pieces.last(),
            )
        }),
    decreases pieces.len(),
{
    let spelled = joined(pieces, seq![0x2fu8]);
    let path = start + spelled + tail;
    let last = pieces.last();
    assert(sound_piece(last));
    let from = start.len() as int;
    if pieces.len() == 1 {
        assert(spelled == last);
        assert(path.subrange(from, from + last.len()) =~= last);
        one_piece_is_read(path, from, Seq::empty(), last);
        assert(Seq::<u8>::empty() + last =~= last);
        assert(pieces.drop_last() =~= Seq::<Seq<u8>>::empty());
        assert(pieces.drop_last() + pieces_from(path, from + spelled.len(), last) =~= pieces_from(
            path,
            from + spelled.len(),
            last,
        ));
    } else {
        let front = pieces.drop_last();
        let before = joined(front, seq![0x2fu8]);
        let behind = seq![0x2fu8] + last + tail;
        assert(spelled =~= before + seq![0x2fu8] + last);
        assert(path =~= start + before + behind);
        assert(sound_pieces(front)) by {
            assert forall|i: int| 0 <= i < front.len() implies sound_piece(#[trigger] front[i]) by {
                assert(sound_piece(pieces[i]));
            }
        }
        pieces_are_read(start, front, behind);
        let gap = from + before.len();
        assert(path[gap] == 0x2f);
        assert(sound_piece(front.last())) by {
            assert(front[front.len() - 1] == front.last());
        }
        assert(kept_piece(front.last()) == seq![front.last()]);
        assert(path.subrange(gap + 1, gap + 1 + last.len()) =~= last);
        one_piece_is_read(path, gap + 1, Seq::empty(), last);
        assert(Seq::<u8>::empty() + last =~= last);
        let after = pieces_from(path, gap + 1 + last.len(), last);
        assert(pieces_from(path, gap, front.last()) == seq![front.last()] + after);
        assert(front.drop_last() + (seq![front.last()] + after) =~= front + after);
    }
}

proof fn spelled_pieces_come_back(start: Seq<u8>, pieces: Seq<Seq<u8>>)
    requires
        pieces.len() > 0,
        sound_pieces(pieces),
    ensures
        pieces_from(
            start + joined(pieces, seq![0x2fu8]),
            start.len() as int,
            Seq::empty(),
        ) == pieces,
{
    let spelled = joined(pieces, seq![0x2fu8]);
    let path = start + spelled;
    pieces_are_read(start, pieces, Seq::empty());
    assert(path + Seq::<u8>::empty() =~= path);
    assert(sound_piece(pieces[pieces.len() - 1]));
    assert(pieces.drop_last() + seq![pieces.last()] =~= pieces);
}

/// A path in the one spelling a graph holds it under is spelled that way
/// already.
pub proof fn canonical_is_canonical(path: Seq<u8>)
    ensures
        canonical(canonical(path)) == canonical(path),
{
    let pieces = settled(pieces_from(path, 0, Seq::empty()));
    pieces_are_sound(path, 0, Seq::empty());
    settling_settles(pieces_from(path, 0, Seq::empty()));
    settled_stays(pieces);
    let spelled = canonical(path);
    let slash = seq![0x2fu8];
    if absolute(path) {
        if pieces.len() == 0 {
            assert(joined(pieces, slash) =~= Seq::empty());
            assert(spelled =~= slash);
            assert(kept_piece(Seq::<u8>::empty()) =~= Seq::empty());
            assert(pieces_from(spelled, 1, Seq::empty()) =~= Seq::empty());
            assert(pieces_from(spelled, 0, Seq::empty()) =~= Seq::empty());
        } else {
            spelled_pieces_come_back(slash, pieces);
            assert(spelled[0] == 0x2f);
            assert(pieces_from(spelled, 0, Seq::empty()) =~= pieces);
        }
    } else if pieces.len() == 0 {
        assert(spelled =~= seq![0x2eu8]);
        let one = Seq::<u8>::empty().push(0x2e);
        assert(one =~= seq![0x2eu8]);
        assert(pieces_from(spelled, 1, one) =~= Seq::empty());
        assert(pieces_from(spelled, 0, Seq::empty()) =~= Seq::empty());
    } else {
        let nothing = Seq::<u8>::empty();
        spelled_pieces_come_back(nothing, pieces);
        assert(nothing + joined(pieces, slash) =~= joined(pieces, slash));
        first_piece_is_first(pieces);
        assert(sound_piece(pieces[0]));
        assert(pieces[0][0] != 0x2f);
        assert(!absolute(spelled));
    }
}

proof fn first_piece_is_first(pieces: Seq<Seq<u8>>)
    requires
        pieces.len() > 0,
        sound_pieces(pieces),
    ensures
        joined(pieces, seq![0x2fu8]).len() > 0,
        joined(pieces, seq![0x2fu8])[0] == pieces[0][0],
    decreases pieces.len(),
{
    assert(sound_piece(pieces[0]));
    if pieces.len() > 1 {
        let front = pieces.drop_last();
        assert(sound_pieces(front)) by {
            assert forall|i: int| 0 <= i < front.len() implies sound_piece(#[trigger] front[i]) by {
                assert(sound_piece(pieces[i]));
            }
        }
        first_piece_is_first(front);
        assert(front[0] == pieces[0]);
    } else {
        assert(pieces.last() == pieces[0]);
    }
}

/// How many components a path has: the root, a leading `.`, and every piece.
pub open spec fn components(path: Seq<u8>) -> nat {
    pieces_from(path, 0, Seq::empty()).len() + (if absolute(path) || here(path) {
        1nat
    } else {
        0nat
    })
}

/// Whether a path begins with the directory it is read in.
pub open spec fn here(path: Seq<u8>) -> bool {
    path.len() > 0 && path[0] == 0x2e && (path.len() == 1 || path[1] == 0x2f)
}

/// The first entry of a list that is wanted.
pub open spec fn first_wanted(entries: Seq<(Vec<u8>, bool)>) -> Option<Seq<u8>>
    decreases entries.len(),
{
    if entries.len() == 0 {
        None
    } else if entries[0].1 {
        Some(entries[0].0@)
    } else {
        first_wanted(entries.drop_first())
    }
}

/// The path an invocation arrived through, which is what `$(MAKE)` reports.
///
/// `absolute_program` is the program's name from the root, where there is one.
/// `entries` is the name under each directory of the search path in turn, each
/// with whether it is this very program: another one earlier on the path cannot
/// capture recursion. A name that is found nowhere stays the name.
pub fn make_named_invocation(
    program: Option<&[u8]>,
    absolute_program: Option<Vec<u8>>,
    entries: &[(Vec<u8>, bool)],
) -> (invoked: Vec<u8>)
    ensures
        ({
            let named = match program {
                Some(written) => written@,
                None => text("make"),
            };
            invoked@ == (if components(named) > 1 {
                match absolute_program {
                    Some(path) => path@,
                    None => named,
                }
            } else {
                match first_wanted(entries@) {
                    Some(path) => path,
                    None => named,
                }
            })
        }),
{
    let named: Vec<u8> = match program {
        Some(written) => copied(written),
        None => literal("make"),
    };
    let pieces: Vec<Vec<u8>> = split_pieces(&named);
    assert(texts(pieces@).len() == pieces@.len());
    let leading: bool = named.len() > 0 && (named[0] == 0x2f || (named[0] == 0x2e && (named.len()
        == 1 || named[1] == 0x2f)));
    if pieces.len() > 1 || (leading && pieces.len() > 0) {
        return match absolute_program {
            Some(path) => path,
            None => named,
        };
    }
    let mut at: usize = 0;
    assert(entries@.skip(0) =~= entries@);
    while at < entries.len()
        invariant
            at <= entries@.len(),
            first_wanted(entries@.skip(at as int)) == first_wanted(entries@),
            named@ == (match program {
                Some(written) => written@,
                None => text("make"),
            }),
            components(named@) <= 1,
        decreases entries@.len() - at,
    {
        assert(entries@.skip(at as int).drop_first() =~= entries@.skip(at as int + 1));
        if entries[at].1 {
            return copied(&entries[at].0);
        }
        at += 1;
    }
    named
}


} // verus!
