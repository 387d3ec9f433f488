//! The inode tree and its object-store paths.
//!
//! An inode's path is the chain of basenames from the mount root joined with
//! `/`, each segment followed by the separator, so a path can be concatenated
//! directly with a further basename to form an object key, or used as-is as a
//! listing prefix. This module states what a well-formed inode table is and
//! proves that paths faithfully encode the basename chain.

use vstd::prelude::*;

use crate::FileType;
use crate::InodeInfo;
use crate::ROOT_INODE;

verus! {

/// Well-formedness of the inode table: the root exists, is a directory and is
/// its own parent; every other inode holds a parent that exists and was
/// allocated earlier (so parent links strictly decrease and the graph is a
/// tree); and no basename contains the path separator.
pub open spec fn inode_map_wf(m: Map<u64, InodeInfo>) -> bool {
    &&& m.contains_key(ROOT_INODE)
    &&& m[ROOT_INODE].parent == ROOT_INODE
    &&& m[ROOT_INODE].kind == FileType::Directory
    &&& forall|i: u64|
        #[trigger] m.contains_key(i) && i != ROOT_INODE ==> m[i].parent < i && m.contains_key(
            m[i].parent,
        )
    &&& forall|i: u64| #[trigger] m.contains_key(i) ==> !m[i].name@.contains('/')
}

/// The object-store path of an inode, or `None` for an unknown inode or a
/// broken parent chain. The root's path is the empty string.
pub open spec fn spec_path(m: Map<u64, InodeInfo>, ino: u64) -> Option<Seq<char>>
    decreases ino,
{
    if ino == ROOT_INODE {
        Some(Seq::empty())
    } else if m.contains_key(ino) && m[ino].parent < ino {
        match spec_path(m, m[ino].parent) {
            Some(p) => Some(p + m[ino].name@ + seq!['/']),
            None => None,
        }
    } else {
        None
    }
}

/// The chain of basenames from the root down to `ino` (the root itself
/// contributes no segment).
pub open spec fn chain_names(m: Map<u64, InodeInfo>, ino: u64) -> Seq<Seq<char>>
    decreases ino,
{
    if ino == ROOT_INODE {
        Seq::empty()
    } else if m.contains_key(ino) && m[ino].parent < ino {
        chain_names(m, m[ino].parent).push(m[ino].name@)
    } else {
        Seq::empty()
    }
}

/// Split `s` on `/`, accumulating the segment read so far in `cur`. A
/// separator closes the current segment; a path that ends in `/` (as every
/// non-root path here does) therefore yields exactly its segments, with no
/// spurious trailing segment.
pub open spec fn split_path_rec(s: Seq<char>, cur: Seq<char>) -> Seq<Seq<char>>
    decreases s.len(),
{
    if s.len() == 0 {
        if cur.len() == 0 {
            Seq::empty()
        } else {
            seq![cur]
        }
    } else if s[0] == '/' {
        seq![cur] + split_path_rec(s.skip(1), Seq::empty())
    } else {
        split_path_rec(s.skip(1), cur.push(s[0]))
    }
}

/// Split a path on the `/` separator.
pub open spec fn split_path(s: Seq<char>) -> Seq<Seq<char>> {
    split_path_rec(s, Seq::empty())
}

/// Splitting a single separator-terminated segment yields that segment,
/// appended to whatever the splitter had already read.
proof fn lemma_split_single(name: Seq<char>, cur: Seq<char>)
    requires
        !name.contains('/'),
    ensures
        split_path_rec(name + seq!['/'], cur) == seq![cur + name],
    decreases name.len(),
{
    let s = name + seq!['/'];
    if name.len() == 0 {
        assert(s =~= seq!['/']);
        assert(s.len() == 1);
        assert(s[0] == '/');
        assert(s.skip(1) =~= Seq::<char>::empty());
        assert(split_path_rec(s.skip(1), Seq::empty()) == Seq::<Seq<char>>::empty());
        assert(split_path_rec(s, cur) == seq![cur] + Seq::<Seq<char>>::empty());
        assert(seq![cur] + Seq::<Seq<char>>::empty() =~= seq![cur]);
        assert(cur + name =~= cur);
    } else {
        assert(name[0] != '/') by {
            if name[0] == '/' {
                assert(name.contains('/'));
            }
        }
        assert(s[0] == name[0]);
        assert(s.skip(1) =~= name.skip(1) + seq!['/']);
        assert(!name.skip(1).contains('/')) by {
            if name.skip(1).contains('/') {
                let j = choose|j: int| 0 <= j < name.skip(1).len() && name.skip(1)[j] == '/';
                assert(name[j + 1] == '/');
                assert(name.contains('/'));
            }
        }
        lemma_split_single(name.skip(1), cur.push(name[0]));
        assert(cur.push(name[0]) + name.skip(1) =~= cur + name);
    }
}

/// Splitting distributes over concatenation at a segment boundary: once `a`
/// ends in a separator (or is empty), the segments of `a + b` are the
/// segments of `a` followed by the segments of `b`.
proof fn lemma_split_append_rec(a: Seq<char>, b: Seq<char>, cur: Seq<char>)
    requires
        a.len() == 0 || a.last() == '/',
        a.len() == 0 ==> cur.len() == 0,
    ensures
        split_path_rec(a + b, cur) == split_path_rec(a, cur) + split_path_rec(b, Seq::empty()),
    decreases a.len(),
{
    if a.len() == 0 {
        assert(a + b =~= b);
        assert(cur =~= Seq::<char>::empty());
        assert(split_path_rec(a, cur) =~= Seq::<Seq<char>>::empty());
        assert(Seq::<Seq<char>>::empty() + split_path_rec(b, Seq::empty()) =~= split_path_rec(
            b,
            Seq::empty(),
        ));
    } else {
        assert((a + b).len() > 0);
        assert((a + b)[0] == a[0]);
        assert((a + b).skip(1) =~= a.skip(1) + b);
        if a[0] == '/' {
            if a.len() == 1 {
                lemma_split_append_rec(a.skip(1), b, Seq::empty());
            } else {
                assert(a.skip(1).last() == a.last());
                lemma_split_append_rec(a.skip(1), b, Seq::empty());
            }
            assert(seq![cur] + (split_path_rec(a.skip(1), Seq::empty()) + split_path_rec(
                b,
                Seq::empty(),
            )) =~= (seq![cur] + split_path_rec(a.skip(1), Seq::empty())) + split_path_rec(
                b,
                Seq::empty(),
            ));
        } else {
            assert(a.len() >= 2) by {
                if a.len() == 1 {
                    assert(a.last() == a[0]);
                }
            }
            assert(a.skip(1).last() == a.last());
            lemma_split_append_rec(a.skip(1), b, cur.push(a[0]));
        }
    }
}

/// Law: for every inode of a well-formed table, the path from the root is
/// defined, ends in the separator (or is empty, for the root itself), and
/// re-splits on the separator into exactly the chain of basenames from the
/// root down to that inode.
pub proof fn lemma_path_reproduces_chain(m: Map<u64, InodeInfo>, ino: u64)
    requires
        inode_map_wf(m),
        m.contains_key(ino),
    ensures
        spec_path(m, ino) matches Some(p) && {
            &&& (p.len() == 0 || p.last() == '/')
            &&& split_path(p) == chain_names(m, ino)
        },
    decreases ino,
{
    if ino == ROOT_INODE {
        assert(split_path_rec(Seq::empty(), Seq::empty()) =~= Seq::<Seq<char>>::empty());
    } else {
        let parent = m[ino].parent;
        assert(m.contains_key(parent) && parent < ino);
        lemma_path_reproduces_chain(m, parent);
        let p_par = spec_path(m, parent)->Some_0;
        let name = m[ino].name@;
        assert(!name.contains('/'));
        let p = p_par + name + seq!['/'];
        assert(spec_path(m, ino) == Some(p));
        assert(p =~= p_par + (name + seq!['/']));
        lemma_split_append_rec(p_par, name + seq!['/'], Seq::empty());
        lemma_split_single(name, Seq::empty());
        assert(Seq::empty() + name =~= name);
        assert(split_path(p) == split_path(p_par) + seq![name]);
        assert(chain_names(m, parent).push(name) =~= chain_names(m, parent) + seq![name]);
        assert(p.last() == '/') by {
            assert(p[p.len() - 1] == seq!['/'][0]);
        }
    }
}

} // verus!
