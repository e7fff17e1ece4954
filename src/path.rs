//! Canonical absolute paths, held as their sequence of components.
use vstd::prelude::*;

verus! {

/// One component of a path, as characters.
pub type Component = Seq<char>;

/// What a path text splits into: the finished components, and the
/// component still being read.
pub open spec fn split_state(s: Seq<char>) -> (Seq<Component>, Component)
    decreases s.len(),
{
    if s.len() == 0 {
        (Seq::empty(), Seq::empty())
    } else {
        let (parts, cur) = split_state(s.drop_last());
        if s.last() == '/' {
            (if cur.len() == 0 { parts } else { parts.push(cur) }, Seq::empty())
        } else {
            (parts, cur.push(s.last()))
        }
    }
}

/// The components of a path text: the runs of characters between `/`
/// separators, empty runs left out.
pub open spec fn path_parts(s: Seq<char>) -> Seq<Component> {
    let (parts, cur) = split_state(s);
    if cur.len() == 0 {
        parts
    } else {
        parts.push(cur)
    }
}

/// `root` is `p` or one of its ancestors: its components begin `p`'s.
pub open spec fn is_under(root: Seq<Component>, p: Seq<Component>) -> bool {
    root.len() <= p.len() && p.subrange(0, root.len() as int) == root
}

/// The parent of a path: none for the filesystem root, else the path
/// without its last component.
pub open spec fn parent_of(p: Seq<Component>) -> Option<Seq<Component>> {
    if p.len() == 0 {
        None
    } else {
        Some(p.drop_last())
    }
}

/// A canonical absolute path.
#[derive(Debug)]
pub struct FsPath {
    parts: Vec<String>,
}

impl View for FsPath {
    type V = Seq<Component>;

    closed spec fn view(&self) -> Seq<Component> {
        self.parts@.map_values(|s: String| s@)
    }
}

impl Clone for FsPath {
    fn clone(&self) -> (r: FsPath)
        ensures
            r@ == self@,
    {
        let r = FsPath { parts: self.parts.clone() };
        assert(r@ =~= self@);
        r
    }
}

impl PartialEq for FsPath {
    fn eq(&self, other: &FsPath) -> (r: bool)
        ensures
            r == (self@ == other@),
    {
        let n = self.parts.len();
        if n != other.parts.len() {
            assert(self@.len() != other@.len());
            return false;
        }
        let mut i: usize = 0;
        while i < n
            invariant
                n == self.parts@.len(),
                n == other.parts@.len(),
                0 <= i <= n,
                forall|k: int| 0 <= k < i ==> self@[k] == other@[k],
            decreases n - i,
        {
            if self.parts[i] != other.parts[i] {
                assert(self@[i as int] != other@[i as int]);
                return false;
            }
            i = i + 1;
        }
        assert(self@ =~= other@);
        true
    }
}

impl vstd::std_specs::cmp::PartialEqSpecImpl for FsPath {
    open spec fn obeys_eq_spec() -> bool {
        true
    }

    open spec fn eq_spec(&self, other: &FsPath) -> bool {
        self@ == other@
    }
}

impl Eq for FsPath {
}

impl FsPath {
    /// The filesystem root, `/`.
    pub fn root() -> (r: FsPath)
        ensures
            r@ == Seq::<Component>::empty(),
    {
        let r = FsPath { parts: Vec::new() };
        assert(r@ =~= Seq::<Component>::empty());
        r
    }

    /// Reads a path from its text: the components are the non-empty runs
    /// between `/` separators.
    pub fn parse(text: &str) -> (r: FsPath)
        ensures
            r@ == path_parts(text@),
    {
        let n = text.unicode_len();
        let mut parts: Vec<String> = Vec::new();
        let mut start: usize = 0;
        let mut i: usize = 0;
        while i < n
            invariant
                n == text@.len(),
                0 <= start <= i <= n,
                split_state(text@.subrange(0, i as int)) == (
                    parts@.map_values(|s: String| s@),
                    text@.subrange(start as int, i as int),
                ),
            decreases n - i,
        {
            let c = text.get_char(i);
            let ghost pre = text@.subrange(0, i as int);
            assert(text@.subrange(0, i + 1).drop_last() =~= pre);
            assert(text@.subrange(0, i + 1).last() == c);
            if c == '/' {
                if start < i {
                    let piece = text.substring_char(start, i).to_string();
                    let ghost before = parts@;
                    parts.push(piece);
                    assert(parts@.map_values(|s: String| s@) =~= before.map_values(
                        |s: String| s@,
                    ).push(text@.subrange(start as int, i as int)));
                }
                start = i + 1;
                assert(text@.subrange(start as int, i + 1) =~= Seq::<char>::empty());
            } else {
                assert(text@.subrange(start as int, i + 1) =~= text@.subrange(
                    start as int,
                    i as int,
                ).push(c));
            }
            i = i + 1;
        }
        assert(text@.subrange(0, n as int) =~= text@);
        if start < n {
            let piece = text.substring_char(start, n).to_string();
            let ghost before = parts@;
            parts.push(piece);
            assert(parts@.map_values(|s: String| s@) =~= before.map_values(|s: String| s@).push(
                text@.subrange(start as int, n as int),
            ));
        }
        let r = FsPath { parts };
        r
    }

    /// Whether `root` is this path or one of its ancestors, comparing whole
    /// components.
    pub fn starts_with(&self, root: &FsPath) -> (r: bool)
        ensures
            r == is_under(root@, self@),
    {
        let n = root.parts.len();
        if n > self.parts.len() {
            return false;
        }
        let mut i: usize = 0;
        while i < n
            invariant
                n == root@.len(),
                n <= self@.len(),
                0 <= i <= n,
                forall|k: int| 0 <= k < i ==> self@[k] == root@[k],
            decreases n - i,
        {
            if self.parts[i] != root.parts[i] {
                assert(self@.subrange(0, n as int)[i as int] != root@[i as int]);
                return false;
            }
            i = i + 1;
        }
        assert(self@.subrange(0, n as int) =~= root@);
        true
    }

    /// Whether the two paths have the same parent; the filesystem root has
    /// none, so two roots agree.
    pub fn same_parent(&self, other: &FsPath) -> (r: bool)
        ensures
            r == (parent_of(self@) == parent_of(other@)),
    {
        let n = self.parts.len();
        if n != other.parts.len() {
            assert(n > 0 && other@.len() > 0 ==> self@.drop_last().len() != other@.drop_last().len());
            return false;
        }
        if n == 0 {
            return true;
        }
        let mut i: usize = 0;
        while i < n - 1
            invariant
                n == self@.len(),
                n == other@.len(),
                n > 0,
                0 <= i <= n - 1,
                forall|k: int| 0 <= k < i ==> self@[k] == other@[k],
            decreases n - 1 - i,
        {
            if self.parts[i] != other.parts[i] {
                assert(self@.drop_last()[i as int] != other@.drop_last()[i as int]);
                return false;
            }
            i = i + 1;
        }
        assert(self@.drop_last() =~= other@.drop_last());
        true
    }
}

/// The name a path is shown under: its last component, or the whole path
/// text for the filesystem root.
pub fn display_name(path: &FsPath) -> (r: &str)
    ensures
        path@.len() > 0 ==> r@ == path@.last(),
        path@.len() == 0 ==> r@ == seq!['/'],
{
    let n = path.parts.len();
    if n == 0 {
        proof {
            reveal_strlit("/");
        }
        "/"
    } else {
        path.parts[n - 1].as_str()
    }
}

} // verus!
