//! What the components of a path are, told from its bytes.

use vstd::prelude::*;

use crate::path;
use crate::path::{ComponentView, PathComponent};
use crate::Name;

verus! {

/// A text without separators is one piece.
proof fn lemma_single_piece(piece: Seq<u8>)
    requires
        !piece.contains(47u8),
    ensures
        path::pieces(piece) == seq![piece],
    decreases piece.len(),
{
    if piece.len() == 0 {
        assert(piece =~= Seq::empty());
    } else {
        let shorter = piece.drop_last();
        assert(!shorter.contains(47u8)) by {
            assert forall|i: int| 0 <= i < shorter.len() implies shorter[i] != 47u8 by {
                assert(piece.contains(piece[i]));
            }
        }
        lemma_single_piece(shorter);
        assert(piece.contains(piece[piece.len() - 1]));
        assert(seq![shorter].drop_last() =~= Seq::<Seq<u8>>::empty());
        assert(shorter.push(piece.last()) =~= piece);
        assert(path::pieces(piece) =~= seq![piece]);
    }
}

/// What a last piece adds to the names of what stands before it: nothing where it is empty or a
/// single dot, and itself otherwise.
pub proof fn law_last_piece_of_the_names(dir: Seq<u8>, piece: Seq<u8>)
    requires
        !piece.contains(47u8),
    ensures
        path::names(dir + seq![47u8] + piece) == path::names(dir) + (if piece.len() == 0 || piece
            == seq![46u8] {
            Seq::empty()
        } else {
            seq![piece]
        }),
        path::names(piece) == (if piece.len() == 0 || piece == seq![46u8] {
            Seq::<Seq<u8>>::empty()
        } else {
            seq![piece]
        }),
{
    let whole = dir + seq![47u8] + piece;
    let pred = |p: Seq<u8>| path::is_name(p);
    path::lemma_joined_pieces(dir, piece);
    assert(whole =~= path::joined(dir, piece));
    lemma_single_piece(piece);
    reveal(Seq::filter);
    assert(path::pieces(dir).push(piece).drop_last() =~= path::pieces(dir));
    assert(path::names(whole) =~= path::names(dir) + (if path::is_name(piece) {
        seq![piece]
    } else {
        Seq::empty()
    }));
    assert(seq![piece].drop_last() =~= Seq::<Seq<u8>>::empty());
    assert(Seq::<Seq<u8>>::empty().filter(pred) =~= Seq::<Seq<u8>>::empty());
    assert(path::names(piece) =~= (if path::is_name(piece) {
        seq![piece]
    } else {
        Seq::empty()
    }));
}

/// What a last piece adds to the components of what stands before it. An empty piece and a single
/// dot add nothing, two dots add the parent directory, and any other piece adds itself. Where
/// nothing stands before the separator, the path is absolute.
///
/// With [`law_components_of_a_piece`] this tells the components of every path.
pub proof fn law_last_piece_of_a_path(dir: Seq<u8>, piece: Seq<u8>)
    requires
        !piece.contains(47u8),
    ensures
        path::components(dir + seq![47u8] + piece) == (if dir.len() == 0 {
            seq![ComponentView::RootDir]
        } else {
            path::components(dir)
        }) + (if piece.len() == 0 || piece == seq![46u8] {
            Seq::empty()
        } else if piece == seq![46u8, 46u8] {
            seq![ComponentView::ParentDir]
        } else {
            seq![ComponentView::Normal(piece)]
        }),
{
    let whole = dir + seq![47u8] + piece;
    law_last_piece_of_the_names(dir, piece);
    if dir.len() == 0 {
        law_last_piece_of_the_names(dir, dir);
        assert(whole[0] == 47u8);
    } else {
        assert(whole[0] == dir[0]);
        if dir.len() > 1 {
            assert(whole[1] == dir[1]);
        } else {
            assert(whole[1] == 47u8);
        }
        assert(path::leading(whole) == path::leading(dir));
    }
    assert(path::components(whole) =~= (if dir.len() == 0 {
        seq![ComponentView::RootDir]
    } else {
        path::components(dir)
    }) + (if piece.len() == 0 || piece == seq![46u8] {
        Seq::empty()
    } else if piece == seq![46u8, 46u8] {
        seq![ComponentView::ParentDir]
    } else {
        seq![ComponentView::Normal(piece)]
    }));
}

/// The components of a path without separators: none where it is empty, the current directory for
/// a single dot, the parent directory for two dots, and otherwise the path itself.
pub proof fn law_components_of_a_piece(piece: Seq<u8>)
    requires
        !piece.contains(47u8),
    ensures
        path::components(piece) == (if piece.len() == 0 {
            Seq::empty()
        } else if piece == seq![46u8] {
            seq![ComponentView::CurDir]
        } else if piece == seq![46u8, 46u8] {
            seq![ComponentView::ParentDir]
        } else {
            seq![ComponentView::Normal(piece)]
        }),
{
    law_last_piece_of_the_names(Seq::empty(), piece);
    if piece.len() > 0 {
        assert(piece.contains(piece[0]));
        if piece.len() > 1 {
            assert(piece.contains(piece[1]));
        }
        if piece.len() == 1 && piece[0] == 46 {
            assert(piece =~= seq![46u8]);
        }
    }
    assert(path::components(piece) =~= (if piece.len() == 0 {
        Seq::empty()
    } else if piece == seq![46u8] {
        seq![ComponentView::CurDir]
    } else if piece == seq![46u8, 46u8] {
        seq![ComponentView::ParentDir]
    } else {
        seq![ComponentView::Normal(piece)]
    }));
}

/// Every byte string that is not empty, holds no separator and is neither a single dot nor two is
/// a component of its own under any directory.
pub proof fn law_any_name_is_a_component(dir: Seq<u8>, name: Seq<u8>)
    requires
        dir.len() > 0,
        name.len() > 0,
        forall|i: int| 0 <= i < name.len() ==> name[i] != 47,
        name != seq![46u8],
        name != seq![46u8, 46u8],
    ensures
        path::components(dir + seq![47u8] + name) == path::components(dir).push(
            ComponentView::Normal(name),
        ),
        path::components(name) == seq![ComponentView::Normal(name)],
{
    assert(!name.contains(47u8));
    law_last_piece_of_a_path(dir, name);
    law_components_of_a_piece(name);
    assert(path::components(dir + seq![47u8] + name) =~= path::components(dir).push(
        ComponentView::Normal(name),
    ));
}

/// The names among components are told part by part: those of the first part, then those of the
/// second.
pub proof fn law_names_among_components(first: Seq<ComponentView>, second: Seq<ComponentView>)
    ensures
        path::normal_names(first + second) == path::normal_names(first) + path::normal_names(
            second,
        ),
    decreases second.len(),
{
    if second.len() == 0 {
        assert(first + second =~= first);
        assert(path::normal_names(first) + path::normal_names(second) =~= path::normal_names(
            first,
        ));
    } else {
        law_names_among_components(first, second.drop_last());
        assert((first + second).drop_last() =~= first + second.drop_last());
        assert(path::normal_names(first + second) =~= path::normal_names(first)
            + path::normal_names(second));
    }
}

/// Only a component of its own has a name, and that is the component itself.
pub proof fn law_name_of_a_component(name: Seq<u8>)
    ensures
        path::normal_names(seq![ComponentView::Normal(name)]) == seq![name],
        path::normal_names(seq![ComponentView::RootDir]) == Seq::<Seq<u8>>::empty(),
        path::normal_names(seq![ComponentView::CurDir]) == Seq::<Seq<u8>>::empty(),
        path::normal_names(seq![ComponentView::ParentDir]) == Seq::<Seq<u8>>::empty(),
        path::normal_names(Seq::empty()) == Seq::<Seq<u8>>::empty(),
{
    reveal_with_fuel(path::normal_names, 2);
    assert(seq![ComponentView::Normal(name)].drop_last() =~= Seq::<ComponentView>::empty());
    assert(seq![ComponentView::RootDir].drop_last() =~= Seq::<ComponentView>::empty());
    assert(seq![ComponentView::CurDir].drop_last() =~= Seq::<ComponentView>::empty());
    assert(seq![ComponentView::ParentDir].drop_last() =~= Seq::<ComponentView>::empty());
    assert(path::normal_names(seq![ComponentView::Normal(name)]) =~= seq![name]);
}

/// A list of owned names or components stands for what its elements stand for, one by one.
pub proof fn law_lists_stand_for_their_elements(names: Seq<Name>, parts: Seq<PathComponent>)
    ensures
        path::names_of(names).len() == names.len(),
        forall|i: int| 0 <= i < names.len() ==> #[trigger] path::names_of(names)[i] == names[i]@,
        path::components_of(parts).len() == parts.len(),
        forall|i: int|
            0 <= i < parts.len() ==> #[trigger] path::components_of(parts)[i] == (match parts[i] {
                PathComponent::RootDir => ComponentView::RootDir,
                PathComponent::CurDir => ComponentView::CurDir,
                PathComponent::ParentDir => ComponentView::ParentDir,
                PathComponent::Normal(name) => ComponentView::Normal(name@),
            }),
{
}

/// The path of the entry that is reached from `dir` by `names`, one below the other.
pub open spec fn below(dir: Seq<u8>, names: Seq<Seq<u8>>) -> Seq<u8>
    decreases names.len(),
{
    if names.len() == 0 {
        dir
    } else {
        below(dir, names.drop_last()) + seq![47u8] + names.last()
    }
}

/// A byte string that can be the name of an entry.
pub open spec fn plain(name: Seq<u8>) -> bool {
    &&& name.len() > 0
    &&& forall|i: int| 0 <= i < name.len() ==> name[i] != 47
    &&& name != seq![46u8]
    &&& name != seq![46u8, 46u8]
}

/// The path of an entry below a directory has the components of the directory and then one for
/// each name.
pub proof fn law_components_below(dir: Seq<u8>, names: Seq<Seq<u8>>)
    requires
        dir.len() > 0,
        forall|i: int| 0 <= i < names.len() ==> plain(#[trigger] names[i]),
    ensures
        below(dir, names).len() > 0,
        path::components(below(dir, names)) == path::components(dir) + Seq::new(
            names.len(),
            |i: int| ComponentView::Normal(names[i]),
        ),
        path::normal_names(
            Seq::new(names.len(), |i: int| ComponentView::Normal(names[i])),
        ) == names,
    decreases names.len(),
{
    let parts = Seq::new(names.len(), |i: int| ComponentView::Normal(names[i]));
    if names.len() == 0 {
        assert(path::components(dir) =~= path::components(dir) + parts);
        assert(path::normal_names(parts) =~= names);
    } else {
        let shorter = names.drop_last();
        assert forall|i: int| 0 <= i < shorter.len() implies plain(#[trigger] shorter[i]) by {
            assert(plain(names[i]));
        }
        law_components_below(dir, shorter);
        assert(plain(names[names.len() - 1]));
        law_any_name_is_a_component(below(dir, shorter), names.last());
        let before = Seq::new(shorter.len(), |i: int| ComponentView::Normal(shorter[i]));
        assert(parts.drop_last() =~= before);
        assert(path::components(below(dir, names)) =~= path::components(dir) + parts);
        assert(path::normal_names(parts) =~= names);
    }
}

} // verus!
