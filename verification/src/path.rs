//! Host paths, as the bytes the operating system hands out.

use vstd::prelude::*;

use crate::Name;

verus! {

/// The byte that separates path components.
pub const SEPARATOR: u8 = 47;

/// The byte of which the names `.` and `..` are made.
pub const DOT: u8 = 46;

/// The pieces of `path` between its separators, empty ones included.
pub open spec fn pieces(path: Seq<u8>) -> Seq<Seq<u8>>
    decreases path.len(),
{
    if path.len() == 0 {
        seq![Seq::empty()]
    } else {
        let before = pieces(path.drop_last());
        if path.last() == SEPARATOR {
            before.push(Seq::empty())
        } else {
            before.drop_last().push(before.last().push(path.last()))
        }
    }
}

/// A piece that names an entry: neither empty nor a single dot.
pub open spec fn is_name(piece: Seq<u8>) -> bool {
    piece.len() > 0 && piece != seq![DOT]
}

/// The piece that names the parent directory.
pub open spec fn is_parent(piece: Seq<u8>) -> bool {
    piece == seq![DOT, DOT]
}

/// The pieces of `path` that name an entry, in order.
pub open spec fn names(path: Seq<u8>) -> Seq<Seq<u8>> {
    pieces(path).filter(|piece: Seq<u8>| is_name(piece))
}

/// The byte strings that a list of owned names stands for.
pub open spec fn names_of(list: Seq<Name>) -> Seq<Seq<u8>> {
    list.map_values(|name: Name| name@)
}

/// What one component of a path is.
#[derive(Debug, Clone, PartialEq, Eq)]
pub enum PathComponent {
    /// The leading separator of an absolute path.
    RootDir,
    /// A leading single dot.
    CurDir,
    /// Two dots.
    ParentDir,
    /// Any other name.
    Normal(Name),
}

/// Mathematical counterpart of [`PathComponent`].
pub enum ComponentView {
    RootDir,
    CurDir,
    ParentDir,
    Normal(Seq<u8>),
}

impl View for PathComponent {
    type V = ComponentView;

    open spec fn view(&self) -> ComponentView {
        match self {
            PathComponent::RootDir => ComponentView::RootDir,
            PathComponent::CurDir => ComponentView::CurDir,
            PathComponent::ParentDir => ComponentView::ParentDir,
            PathComponent::Normal(name) => ComponentView::Normal(name@),
        }
    }
}

/// The component that a name stands for.
pub open spec fn component(name: Seq<u8>) -> ComponentView {
    if is_parent(name) {
        ComponentView::ParentDir
    } else {
        ComponentView::Normal(name)
    }
}

/// What a path begins with before its first name: a separator, a single dot, or nothing.
pub open spec fn leading(path: Seq<u8>) -> Seq<ComponentView> {
    if path.len() > 0 && path[0] == SEPARATOR {
        seq![ComponentView::RootDir]
    } else if path.len() > 0 && path[0] == DOT && (path.len() == 1 || path[1] == SEPARATOR) {
        seq![ComponentView::CurDir]
    } else {
        Seq::empty()
    }
}

/// The components of a path. Repeated and trailing separators do not count, nor does a single
/// dot anywhere but at the beginning.
pub open spec fn components(path: Seq<u8>) -> Seq<ComponentView> {
    leading(path) + names(path).map_values(|name: Seq<u8>| component(name))
}

/// The components that a list of owned components stands for.
pub open spec fn components_of(list: Seq<PathComponent>) -> Seq<ComponentView> {
    list.map_values(|c: PathComponent| c@)
}

/// The names among `list`, in order.
pub open spec fn normal_names(list: Seq<ComponentView>) -> Seq<Seq<u8>>
    decreases list.len(),
{
    if list.len() == 0 {
        Seq::empty()
    } else {
        match list.last() {
            ComponentView::Normal(name) => normal_names(list.drop_last()).push(name),
            _ => normal_names(list.drop_last()),
        }
    }
}

/// `name` under the directory `dir`.
pub open spec fn joined(dir: Seq<u8>, name: Seq<u8>) -> Seq<u8> {
    dir.push(SEPARATOR) + name
}

/// A single name of an entry, other than that of the parent directory.
pub open spec fn is_entry_name(name: Seq<u8>) -> bool {
    is_name(name) && !is_parent(name) && !name.contains(SEPARATOR)
}

/// The pieces of an entry's path are those of its directory and its name.
pub proof fn lemma_joined_pieces(dir: Seq<u8>, name: Seq<u8>)
    requires
        !name.contains(SEPARATOR),
    ensures
        pieces(joined(dir, name)) == pieces(dir).push(name),
    decreases name.len(),
{
    let whole = joined(dir, name);
    if name.len() == 0 {
        assert(whole.drop_last() =~= dir);
        assert(name =~= Seq::empty());
    } else {
        let shorter = name.drop_last();
        assert(!shorter.contains(SEPARATOR)) by {
            assert forall|i: int| 0 <= i < shorter.len() implies shorter[i] != SEPARATOR by {
                assert(name[i] != SEPARATOR);
            }
        }
        assert(name[name.len() - 1] != SEPARATOR);
        lemma_joined_pieces(dir, shorter);
        assert(whole.drop_last() =~= joined(dir, shorter));
        let before = pieces(dir).push(shorter);
        assert(before.drop_last() =~= pieces(dir));
        assert(shorter.push(name.last()) =~= name);
    }
}

/// The path of an entry has one component more than that of its directory.
pub proof fn law_joined_adds_a_component(dir: Seq<u8>, name: Seq<u8>)
    requires
        dir.len() > 0,
        is_entry_name(name),
    ensures
        components(joined(dir, name)) == components(dir).push(ComponentView::Normal(name)),
{
    let whole = joined(dir, name);
    lemma_joined_pieces(dir, name);
    let pred = |piece: Seq<u8>| is_name(piece);
    assert(names(whole) =~= names(dir).push(name)) by {
        reveal(Seq::filter);
        assert(pieces(whole).drop_last() =~= pieces(dir));
        assert(pieces(whole).last() == name);
    }
    assert(whole[0] == dir[0]);
    if dir.len() > 1 {
        assert(whole[1] == dir[1]);
    }
    assert(leading(whole) == leading(dir));
    assert(components(whole) =~= components(dir).push(component(name)));
}

/// The names of `path`: its pieces without the empty ones and the single dots.
pub fn split_names(path: &[u8]) -> (r: Vec<Name>)
    ensures
        names_of(r@) == names(path@),
{
    let ghost pred = |piece: Seq<u8>| is_name(piece);
    let mut done: Vec<Name> = Vec::new();
    let mut piece: Name = Vec::new();
    let mut i: usize = 0;
    assert(path@.take(0) =~= Seq::<u8>::empty());
    proof {
        reveal_with_fuel(Seq::filter, 1);
        assert(pieces(path@.take(0)) =~= seq![Seq::<u8>::empty()]);
        assert(pieces(path@.take(0)).drop_last() =~= Seq::<Seq<u8>>::empty());
    }
    assert(names_of(done@) =~= Seq::<Seq<u8>>::empty());
    while i < path.len()
        invariant
            i <= path.len(),
            pred == (|piece: Seq<u8>| is_name(piece)),
            pieces(path@.take(i as int)).len() > 0,
            piece@ == pieces(path@.take(i as int)).last(),
            names_of(done@) == pieces(path@.take(i as int)).drop_last().filter(pred),
        decreases path.len() - i,
    {
        let b = path[i];
        let ghost old_pieces = pieces(path@.take(i as int));
        let ghost old_done = done@;
        proof {
            assert(path@.take(i + 1).drop_last() =~= path@.take(i as int));
            assert(path@.take(i + 1).last() == b);
        }
        if b == SEPARATOR {
            let finished = piece;
            piece = Vec::new();
            proof {
                let now = pieces(path@.take(i + 1));
                assert(now.drop_last() =~= old_pieces);
                assert(old_pieces.drop_last().push(old_pieces.last()) =~= old_pieces);
                old_pieces.drop_last().lemma_filter_push(old_pieces.last(), pred);
            }
            if finished.len() > 0 && !(finished.len() == 1 && finished[0] == DOT) {
                proof {
                    if finished@ == seq![DOT] {
                        assert(finished@[0] == DOT);
                    }
                    assert(names_of(old_done.push(finished)) =~= names_of(old_done).push(
                        finished@,
                    ));
                }
                done.push(finished);
            } else {
                assert(finished.len() == 1 ==> finished@ =~= seq![DOT]);
            }
            assert(piece@ =~= Seq::<u8>::empty());
        } else {
            proof {
                let now = pieces(path@.take(i + 1));
                assert(now.drop_last() =~= old_pieces.drop_last());
            }
            piece.push(b);
        }
        i += 1;
    }
    proof {
        assert(path@.take(path@.len() as int) =~= path@);
        let all = pieces(path@);
        assert(all.drop_last().push(all.last()) =~= all);
        all.drop_last().lemma_filter_push(all.last(), pred);
    }
    let ghost old_done = done@;
    if piece.len() > 0 && !(piece.len() == 1 && piece[0] == DOT) {
        proof {
            if piece@ == seq![DOT] {
                assert(piece@[0] == DOT);
            }
            assert(names_of(old_done.push(piece)) =~= names_of(old_done).push(piece@));
        }
        done.push(piece);
    } else {
        assert(piece.len() == 1 ==> piece@ =~= seq![DOT]);
    }
    done
}

/// A path on the host, as raw bytes.
#[derive(Debug, PartialEq, Eq)]
pub struct HostPath {
    bytes: Vec<u8>,
}

impl View for HostPath {
    type V = Seq<u8>;

    closed spec fn view(&self) -> Seq<u8> {
        self.bytes@
    }
}

impl Clone for HostPath {
    /// A path of the same bytes.
    fn clone(&self) -> (r: Self)
        ensures
            r@ == self@,
    {
        HostPath::from_bytes(self.bytes.as_slice())
    }
}

impl HostPath {
    /// The path that `bytes` spell.
    pub fn from_bytes(bytes: &[u8]) -> (r: Self)
        ensures
            r@ == bytes@,
    {
        HostPath { bytes: vstd::slice::slice_to_vec(bytes) }
    }

    /// The bytes of the path.
    pub fn as_bytes(&self) -> (r: &[u8])
        ensures
            r@ == self@,
    {
        self.bytes.as_slice()
    }

    /// The components of the path.
    pub fn components(&self) -> (r: Vec<PathComponent>)
        ensures
            components_of(r@) == components(self@),
    {
        let bytes = self.bytes.as_slice();
        let mut list: Vec<PathComponent> = Vec::new();
        if bytes.len() > 0 && bytes[0] == SEPARATOR {
            list.push(PathComponent::RootDir);
        } else if bytes.len() > 0 && bytes[0] == DOT && (bytes.len() == 1 || bytes[1]
            == SEPARATOR) {
            list.push(PathComponent::CurDir);
        }
        assert(components_of(list@) =~= leading(self@));
        let mut rest = split_names(bytes);
        let ghost all = names(self@);
        let ghost whole = components(self@);
        let ghost start = leading(self@).len();
        rest = reversed(rest);
        while rest.len() > 0
            invariant
                whole == leading(self@) + all.map_values(|name: Seq<u8>| component(name)),
                start == leading(self@).len(),
                rest.len() <= all.len(),
                forall|j: int|
                    0 <= j < rest.len() ==> (#[trigger] rest@[j])@ == all[all.len() - 1 - j],
                components_of(list@) == whole.take(start + all.len() - rest.len()),
            decreases rest.len(),
        {
            let ghost n = all.len() - rest.len();
            let ghost before = list@;
            match rest.pop() {
                Some(name) => {
                    assert(name@ == all[n]);
                    let parent = name.len() == 2 && name[0] == DOT && name[1] == DOT;
                    proof {
                        if parent {
                            assert(name@ =~= seq![DOT, DOT]);
                        } else if is_parent(name@) {
                            assert(name@[0] == DOT && name@[1] == DOT);
                        }
                        assert(whole[start + n] == component(all[n]));
                    }
                    let c = if parent {
                        PathComponent::ParentDir
                    } else {
                        PathComponent::Normal(name)
                    };
                    list.push(c);
                    assert(components_of(list@) =~= components_of(before).push(c@));
                    assert(whole.take(start + n + 1) =~= whole.take(start + n).push(
                        whole[start + n],
                    ));
                },
                None => {},
            }
        }
        assert(whole.take((start + all.len()) as int) =~= whole);
        list
    }

    /// What is left of the components after those of `base`, or nothing where the path does not
    /// begin with the components of `base`.
    pub fn strip_prefix(&self, base: &HostPath) -> (r: Option<Vec<PathComponent>>)
        ensures
            r is Some <==> components(base@).is_prefix_of(components(self@)),
            r matches Some(rest) ==> components(self@) == components(base@) + components_of(rest@),
    {
        let whole = self.components();
        let prefix = base.components();
        if prefix.len() > whole.len() {
            return None;
        }
        let mut i: usize = 0;
        while i < prefix.len()
            invariant
                i <= prefix.len() <= whole.len(),
                components_of(whole@) == components(self@),
                components_of(prefix@) == components(base@),
                forall|j: int| 0 <= j < i ==> prefix@[j]@ == #[trigger] whole@[j]@,
            decreases prefix.len() - i,
        {
            if !same_component(&prefix[i], &whole[i]) {
                proof {
                    assert(components(base@)[i as int] == prefix@[i as int]@);
                    assert(components(self@)[i as int] == whole@[i as int]@);
                }
                return None;
            }
            i += 1;
        }
        let mut whole = whole;
        let ghost all = whole@;
        let rest = whole.split_off(i);
        proof {
            assert forall|j: int| 0 <= j < prefix@.len() implies components(base@)[j]
                == components(self@)[j] by {
                assert(components(base@)[j] == prefix@[j]@);
                assert(components(self@)[j] == all[j]@);
            }
            assert(components(base@) =~= components(self@).take(prefix@.len() as int));
            assert(components(self@) =~= components(base@) + components_of(rest@));
        }
        Some(rest)
    }
}

/// Whether two components are the same.
pub fn same_component(a: &PathComponent, b: &PathComponent) -> (r: bool)
    ensures
        r == (a@ == b@),
{
    match (a, b) {
        (PathComponent::RootDir, PathComponent::RootDir) => true,
        (PathComponent::CurDir, PathComponent::CurDir) => true,
        (PathComponent::ParentDir, PathComponent::ParentDir) => true,
        (PathComponent::Normal(x), PathComponent::Normal(y)) => crate::bytes::equal(
            x.as_slice(),
            y.as_slice(),
        ),
        _ => false,
    }
}

/// `list` from its last element to its first.
fn reversed<T>(list: Vec<T>) -> (r: Vec<T>)
    ensures
        r@ == list@.reverse(),
{
    let mut list = list;
    let ghost all = list@;
    let mut r: Vec<T> = Vec::new();
    while list.len() > 0
        invariant
            list@.len() + r@.len() == all.len(),
            list@ == all.take(list@.len() as int),
            r@ == all.reverse().take(r@.len() as int),
        decreases list.len(),
    {
        let ghost n = r@.len();
        match list.pop() {
            Some(x) => {
                r.push(x);
                assert(all.reverse()[n as int] == x);
                assert(all.reverse().take((n + 1) as int) =~= all.reverse().take(n as int).push(x));
            },
            None => {},
        }
    }
    assert(all.reverse().take(all.len() as int) =~= all.reverse());
    r
}

/// The names among the components of `list`, in order.
pub fn collect_names(list: &[PathComponent]) -> (r: Vec<Name>)
    ensures
        names_of(r@) == normal_names(components_of(list@)),
{
    let ghost all = components_of(list@);
    let mut found: Vec<Name> = Vec::new();
    let mut i: usize = 0;
    assert(all.take(0) =~= Seq::<ComponentView>::empty());
    assert(names_of(found@) =~= Seq::<Seq<u8>>::empty());
    while i < list.len()
        invariant
            i <= list.len(),
            all == components_of(list@),
            names_of(found@) == normal_names(all.take(i as int)),
        decreases list.len() - i,
    {
        let ghost before = found@;
        assert(all.take(i + 1).drop_last() =~= all.take(i as int));
        assert(all.take(i + 1).last() == list@[i as int]@);
        match &list[i] {
            PathComponent::Normal(name) => {
                let copy = vstd::slice::slice_to_vec(name.as_slice());
                found.push(copy);
                assert(names_of(found@) =~= names_of(before).push(name@));
            },
            _ => {},
        }
        i += 1;
    }
    assert(all.take(all.len() as int) =~= all);
    found
}

} // verus!
