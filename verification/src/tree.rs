//! The nested file listing: the flat file/count list folded into a tree
//! of path segments, directories holding children and files their entry
//! counts. A file's leaf is reachable along its segments whenever no
//! other listed path lies on the same line of descent.

use vstd::prelude::*;

verus! {

use crate::storage::Storage;
use crate::text::{split_on, split_string, str_eq, str_views};
use crate::types::FileTreeNode;

/// Segments of a slash-separated path, empty pieces dropped.
pub open spec fn path_segs(s: Seq<char>) -> Seq<Seq<char>> {
    split_on(s, '/').filter(|p: Seq<char>| p.len() > 0)
}

/// The path of names `segs[i..]` descends the tree to a leaf carrying
/// `count`.
pub open spec fn tree_has_leaf(
    nodes: Seq<FileTreeNode>,
    segs: Seq<Seq<char>>,
    i: int,
    count: int,
) -> bool
    decreases segs.len() - i,
    when 0 <= i
{
    0 <= i < segs.len() && exists|j: int|
        0 <= j < nodes.len() && ({
            let n = #[trigger] nodes[j];
            &&& n.name@ == segs[i]
            &&& (if i == segs.len() - 1 {
                n.count matches Some(c) && c == count
            } else {
                n.children matches Some(ch) && tree_has_leaf(ch@, segs, i + 1, count)
            })
        })
}

/// The suffix of `a` from `i` starts `b`'s suffix from `i`: wholly equal
/// segments as far as `a` reaches.
pub open spec fn suffix_prefix(a: Seq<Seq<char>>, b: Seq<Seq<char>>, i: int) -> bool {
    a.len() - i <= b.len() - i && (forall|k: int| 0 <= k < a.len() - i ==> #[trigger] a[i + k] == b[
        i + k])
}

/// Two segment paths lie on one line of descent: one leads into (or
/// equals) the other, so in a tree one of them shadows the other.
pub open spec fn segs_conflict(a: Seq<Seq<char>>, b: Seq<Seq<char>>) -> bool {
    suffix_prefix(a, b, 0) || suffix_prefix(b, a, 0)
}

/// No other entry of the listing shares entry `m0`'s line of descent.
#[verifier::opaque]
pub open spec fn flat_no_conflict(flat: Seq<(String, usize)>, m0: int) -> bool {
    forall|m2: int|
        0 <= m2 < flat.len() && m2 != m0 ==> !segs_conflict(
            path_segs(flat[m0].0@),
            path_segs((#[trigger] flat[m2]).0@),
        )
}

impl Storage {
    /// Splits a path into its nonempty segments.
    #[verifier::loop_isolation(false)]
    pub fn path_segments(path_str: &str) -> (r: Vec<String>)
        ensures
            str_views(r@) == path_segs(path_str@),
    {
        let ghost pred = |p: Seq<char>| p.len() > 0;
        let parts = split_string(path_str, '/');
        let ghost pv = split_on(path_str@, '/');
        let mut r: Vec<String> = Vec::new();
        let n = parts.len();
        let mut i: usize = 0;
        proof {
            assert(pv.take(0).filter(pred) =~= Seq::<Seq<char>>::empty());
            assert(str_views(r@) =~= Seq::<Seq<char>>::empty());
        }
        while i < n
            invariant
                i <= n,
                str_views(r@) == pv.take(i as int).filter(pred),
            decreases n - i,
        {
            let ghost r0 = r@;
            proof {
                broadcast use vstd::prelude::Seq::lemma_filter_push;

                assert(pv.take(i + 1) =~= pv.take(i as int).push(pv[i as int]));
            }
            if parts[i].as_str().unicode_len() > 0 {
                r.push(parts[i].clone());
                proof {
                    assert(str_views(r@) =~= str_views(r0).push(parts@[i as int]@));
                }
            }
            i = i + 1;
        }
        proof {
            assert(pv.take(n as int) =~= pv);
        }
        r
    }

    /// Plants the leaf for `segs[from..]` with `count`, growing directory
    /// nodes along the way. The planted path is reachable afterwards, and
    /// every leaf whose path does not share this one's line of descent
    /// stays reachable.
    #[verifier::loop_isolation(false)]
    #[verifier::rlimit(60)]
    fn insert_leaf(nodes: &mut Vec<FileTreeNode>, segs: &Vec<String>, from: usize, count: usize)
        requires
            from < segs@.len(),
        ensures
            tree_has_leaf(final(nodes)@, str_views(segs@), from as int, count as int),
            forall|segs2: Seq<Seq<char>>, c2: int|
                #![trigger tree_has_leaf(final(nodes)@, segs2, from as int, c2)]
                (tree_has_leaf(old(nodes)@, segs2, from as int, c2) && !suffix_prefix(
                    str_views(segs@),
                    segs2,
                    from as int,
                ) && !suffix_prefix(segs2, str_views(segs@), from as int)) ==> tree_has_leaf(
                    final(nodes)@,
                    segs2,
                    from as int,
                    c2,
                ),
        decreases segs@.len() - from,
    {
        let ghost sv = str_views(segs@);
        let ghost nodes0 = nodes@;
        let name = segs[from].clone();
        let n = nodes.len();
        let mut j: usize = 0;
        let mut found: Option<usize> = None;
        while j < n
            invariant
                j <= n,
                nodes@ == nodes0,
                n == nodes0.len(),
                match found {
                    Some(fj) => fj < n && nodes0[fj as int].name@ == sv[from as int],
                    None => forall|k: int| 0 <= k < j ==> (#[trigger] nodes0[k]).name@ != sv[
                        from as int],
                },
            decreases n - j,
        {
            if str_eq(nodes[j].name.as_str(), name.as_str()) {
                found = Some(j);
                break ;
            }
            j = j + 1;
        }
        if segs.len() - from == 1 {
            match found {
                Some(jj) => {
                    let _ = nodes.remove(jj);
                },
                None => {},
            }
            nodes.push(FileTreeNode { name, count: Some(count), children: None });
            proof {
                let new_nodes = nodes@;
                assert(new_nodes[new_nodes.len() - 1].name@ == sv[from as int]);
                assert(tree_has_leaf(new_nodes, sv, from as int, count as int));
                assert forall|segs2: Seq<Seq<char>>, c2: int|
                    #![trigger tree_has_leaf(new_nodes, segs2, from as int, c2)]
                    (tree_has_leaf(nodes0, segs2, from as int, c2) && !suffix_prefix(
                        sv,
                        segs2,
                        from as int,
                    ) && !suffix_prefix(segs2, sv, from as int)) implies tree_has_leaf(
                    new_nodes,
                    segs2,
                    from as int,
                    c2,
                ) by {
                    let j0 = choose|j0: int|
                        0 <= j0 < nodes0.len() && ({
                            let nn = #[trigger] nodes0[j0];
                            &&& nn.name@ == segs2[from as int]
                            &&& (if from as int == segs2.len() - 1 {
                                nn.count matches Some(c) && c == c2
                            } else {
                                nn.children matches Some(ch) && tree_has_leaf(
                                    ch@,
                                    segs2,
                                    from + 1,
                                    c2,
                                )
                            })
                        });
                    if nodes0[j0].name@ == sv[from as int] {
                        // Same head as the planted leaf: the whole leaf path
                        // is a prefix of the other, which the bound rules out.
                        assert(suffix_prefix(sv, segs2, from as int));
                        assert(false);
                    } else {
                        match found {
                            Some(jj) => {
                                nodes0.remove_ensures(jj as int);
                                assert(j0 != jj);
                                let j1: int = if j0 < jj {
                                    j0
                                } else {
                                    j0 - 1
                                };
                                assert(new_nodes[j1] == nodes0[j0]);
                            },
                            None => {
                                assert(new_nodes[j0] == nodes0[j0]);
                            },
                        }
                    }
                }
            }
        } else {
            let mut children: Vec<FileTreeNode> = Vec::new();
            let ghost mut had_children: Option<Seq<FileTreeNode>> = None;
            match found {
                Some(jj) => {
                    let node = nodes.remove(jj);
                    match node.children {
                        Some(ch) => {
                            proof {
                                had_children = Some(ch@);
                            }
                            children = ch;
                        },
                        None => {},
                    }
                },
                None => {},
            }
            let ghost mid_nodes = nodes@;
            let ghost ch0 = children@;
            Self::insert_leaf(&mut children, segs, from + 1, count);
            nodes.push(FileTreeNode { name, count: None, children: Some(children) });
            proof {
                let new_nodes = nodes@;
                assert(new_nodes[new_nodes.len() - 1].name@ == sv[from as int]);
                assert(tree_has_leaf(new_nodes, sv, from as int, count as int));
                assert forall|segs2: Seq<Seq<char>>, c2: int|
                    #![trigger tree_has_leaf(new_nodes, segs2, from as int, c2)]
                    (tree_has_leaf(nodes0, segs2, from as int, c2) && !suffix_prefix(
                        sv,
                        segs2,
                        from as int,
                    ) && !suffix_prefix(segs2, sv, from as int)) implies tree_has_leaf(
                    new_nodes,
                    segs2,
                    from as int,
                    c2,
                ) by {
                    let j0 = choose|j0: int|
                        0 <= j0 < nodes0.len() && ({
                            let nn = #[trigger] nodes0[j0];
                            &&& nn.name@ == segs2[from as int]
                            &&& (if from as int == segs2.len() - 1 {
                                nn.count matches Some(c) && c == c2
                            } else {
                                nn.children matches Some(ch) && tree_has_leaf(
                                    ch@,
                                    segs2,
                                    from + 1,
                                    c2,
                                )
                            })
                        });
                    if nodes0[j0].name@ != sv[from as int] {
                        // A different head: that node only moved positions.
                        match found {
                            Some(jj) => {
                                nodes0.remove_ensures(jj as int);
                                assert(j0 != jj);
                                let j1: int = if j0 < jj {
                                    j0
                                } else {
                                    j0 - 1
                                };
                                assert(new_nodes[j1] == nodes0[j0]);
                            },
                            None => {
                                assert(new_nodes[j0] == nodes0[j0]);
                            },
                        }
                    } else {
                        // Same head. The other path cannot end here: its
                        // whole path would lead into the planted one.
                        if from as int == segs2.len() - 1 {
                            assert(suffix_prefix(segs2, sv, from as int));
                            assert(false);
                        }
                        match found {
                            None => {
                                assert(nodes0[j0].name@ != sv[from as int]);
                                assert(false);
                            },
                            Some(jj) => {
                                if j0 != jj {
                                    // A same-named sibling survives as is.
                                    nodes0.remove_ensures(jj as int);
                                    let j1: int = if j0 < jj {
                                        j0
                                    } else {
                                        j0 - 1
                                    };
                                    assert(new_nodes[j1] == nodes0[j0]);
                                } else {
                                    // The planted path descends through this
                                    // node; the recursion kept the other leaf.
                                    assert(nodes0[jj as int].children matches Some(chv) && chv@
                                        == ch0);
                                    assert(tree_has_leaf(ch0, segs2, from + 1, c2));
                                    assert(!suffix_prefix(sv, segs2, from + 1)) by {
                                        if suffix_prefix(sv, segs2, from + 1) {
                                            assert forall|k: int|
                                                0 <= k < sv.len() - from implies #[trigger] sv[from
                                                + k] == segs2[from + k] by {
                                                if k > 0 {
                                                    assert(sv[(from + 1) + (k - 1)] == segs2[(from
                                                        + 1) + (k - 1)]);
                                                }
                                            }
                                            assert(suffix_prefix(sv, segs2, from as int));
                                        }
                                    }
                                    assert(!suffix_prefix(segs2, sv, from + 1)) by {
                                        if suffix_prefix(segs2, sv, from + 1) {
                                            assert forall|k: int|
                                                0 <= k < segs2.len() - from implies #[trigger] segs2[
                                                from + k] == sv[from + k] by {
                                                if k > 0 {
                                                    assert(segs2[(from + 1) + (k - 1)] == sv[(from
                                                        + 1) + (k - 1)]);
                                                }
                                            }
                                            assert(suffix_prefix(segs2, sv, from as int));
                                        }
                                    }
                                    assert(tree_has_leaf(children@, segs2, from + 1, c2));
                                    assert(new_nodes[new_nodes.len() - 1].children matches Some(
                                        chn,
                                    ) && chn@ == children@);
                                }
                            },
                        }
                    }
                }
            }
        }
    }


    /// Folds the flat file/count listing that `list_files` returns into
    /// the nested tree: one leaf per listed file carrying its entry
    /// count, one directory node per path segment above it. Every listed
    /// file whose path shares no line of descent with another listed
    /// entry is reachable in the tree along its segments.
    #[verifier::rlimit(60)]
    pub fn list_files_tree(&self, flat: &Vec<(String, usize)>) -> (r: Vec<FileTreeNode>)
        ensures
            forall|m0: int|
                0 <= m0 < flat@.len() ==> ({
                    let p0 = #[trigger] flat@[m0];
                    (path_segs(p0.0@).len() > 0 && flat_no_conflict(flat@, m0)) ==> tree_has_leaf(
                        r@,
                        path_segs(p0.0@),
                        0,
                        p0.1 as int,
                    )
                }),
    {
        let mut tree: Vec<FileTreeNode> = Vec::new();
        let n = flat.len();
        let mut m: usize = 0;
        while m < n
            invariant
                n == flat@.len(),
                m <= n,
                forall|m0: int|
                    0 <= m0 < m ==> ({
                        let p0 = #[trigger] flat@[m0];
                        (path_segs(p0.0@).len() > 0 && flat_no_conflict(flat@, m0))
                            ==> tree_has_leaf(tree@, path_segs(p0.0@), 0, p0.1 as int)
                    }),
            decreases n - m,
        {
            let ghost tree0 = tree@;
            let segs = Self::path_segments(flat[m].0.as_str());
            if segs.len() > 0 {
                Self::insert_leaf(&mut tree, &segs, 0, flat[m].1);
            }
            proof {
                assert forall|m0: int| 0 <= m0 < m + 1 implies ({
                    let p0 = #[trigger] flat@[m0];
                    (path_segs(p0.0@).len() > 0 && flat_no_conflict(flat@, m0)) ==> tree_has_leaf(
                        tree@,
                        path_segs(p0.0@),
                        0,
                        p0.1 as int,
                    )
                }) by {
                    let p0 = flat@[m0];
                    if path_segs(p0.0@).len() > 0 && flat_no_conflict(flat@, m0) {
                        if m0 < m {
                            assert(tree_has_leaf(tree0, path_segs(p0.0@), 0, p0.1 as int));
                            if segs@.len() > 0 {
                                assert(!segs_conflict(
                                    path_segs(p0.0@),
                                    path_segs(flat@[m as int].0@),
                                )) by {
                                    reveal(flat_no_conflict);
                                }
                                assert(str_views(segs@) == path_segs(flat@[m as int].0@));
                                assert(tree_has_leaf(tree@, path_segs(p0.0@), 0, p0.1 as int));
                            } else {
                                assert(tree@ == tree0);
                            }
                        } else {
                            assert(str_views(segs@) == path_segs(p0.0@));
                            assert(segs@.len() == path_segs(p0.0@).len());
                            assert(tree_has_leaf(tree@, path_segs(p0.0@), 0, p0.1 as int));
                        }
                    }
                }
            }
            m = m + 1;
        }
        tree
    }

}

} // verus!
