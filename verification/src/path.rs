//! Lexical path handling. A resolved path is a list of name components,
//! normalized without touching any filesystem: empty components and `.` are
//! dropped, and `..` removes the component before it when there is one and
//! is dropped otherwise, so a resolved path can never climb above the
//! extraction root.

use vstd::prelude::*;

verus! {

/// Lexical normalization of a component list, left to right: `""` and `.`
/// vanish, `..` removes the preceding component when one remains and
/// vanishes otherwise, anything else is kept.
pub open spec fn spec_normalize(cs: Seq<Seq<char>>) -> Seq<Seq<char>>
    decreases cs.len(),
{
    if cs.len() == 0 {
        Seq::empty()
    } else {
        let pre = spec_normalize(cs.drop_last());
        let c = cs.last();
        if c.len() == 0 || c == seq!['.'] {
            pre
        } else if c == seq!['.', '.'] {
            if pre.len() > 0 {
                pre.drop_last()
            } else {
                pre
            }
        } else {
            pre.push(c)
        }
    }
}

/// Every component of a normalized path is nonempty and neither `.` nor
/// `..`: resolved paths are relative and cannot traverse upward.
pub proof fn lemma_normalize_clean(cs: Seq<Seq<char>>)
    ensures
        forall|i: int|
            0 <= i < spec_normalize(cs).len() ==> (#[trigger] spec_normalize(cs)[i]).len() > 0
                && spec_normalize(cs)[i] != seq!['.'] && spec_normalize(cs)[i] != seq!['.', '.'],
    decreases cs.len(),
{
    if cs.len() > 0 {
        lemma_normalize_clean(cs.drop_last());
        let pre = spec_normalize(cs.drop_last());
        let c = cs.last();
        if c.len() == 0 || c == seq!['.'] {
        } else if c == seq!['.', '.'] {
            if pre.len() > 0 {
                assert(forall|i: int|
                    0 <= i < pre.len() - 1 ==> pre.drop_last()[i] == #[trigger] pre[i]);
            }
        } else {
            assert(forall|i: int| 0 <= i < pre.len() ==> #[trigger] pre.push(c)[i] == pre[i]);
            assert(pre.push(c)[pre.len() as int] == c);
        }
    }
}

/// The components joined with `/` separators.
pub open spec fn spec_join(cs: Seq<Seq<char>>) -> Seq<char>
    decreases cs.len(),
{
    if cs.len() == 0 {
        Seq::empty()
    } else if cs.len() == 1 {
        cs[0]
    } else {
        spec_join(cs.drop_last()) + seq!['/'] + cs.last()
    }
}

/// A joined path begins with the first component's first character; since
/// normalized components are nonempty and hold no separator, a resolved
/// path never begins with `/` and is therefore relative.
pub proof fn lemma_join_first_char(cs: Seq<Seq<char>>)
    requires
        cs.len() > 0,
        cs[0].len() > 0,
    ensures
        spec_join(cs).len() > 0,
        spec_join(cs)[0] == cs[0][0],
    decreases cs.len(),
{
    if cs.len() > 1 {
        lemma_join_first_char(cs.drop_last());
        assert(cs.drop_last()[0] == cs[0]);
        assert(spec_join(cs)[0] == spec_join(cs.drop_last())[0]);
    }
}

/// Whether the component is empty.
fn is_empty_component(s: &String) -> (r: bool)
    ensures
        r == (s@ == Seq::<char>::empty()),
{
    let r = s.as_str().is_empty();
    proof {
        if s@.len() == 0 {
            assert(s@ =~= Seq::<char>::empty());
        }
    }
    r
}

/// Whether the component is `.`.
fn is_dot(s: &String) -> (r: bool)
    ensures
        r == (s@ == seq!['.']),
{
    let n = s.as_str().unicode_len();
    if n != 1 {
        return false;
    }
    let c = s.as_str().get_char(0);
    proof {
        if s@[0] == '.' {
            assert(s@ =~= seq!['.']);
        }
    }
    c == '.'
}

/// Whether the component is `..`.
fn is_dot_dot(s: &String) -> (r: bool)
    ensures
        r == (s@ == seq!['.', '.']),
{
    let n = s.as_str().unicode_len();
    if n != 2 {
        return false;
    }
    let c0 = s.as_str().get_char(0);
    let c1 = s.as_str().get_char(1);
    proof {
        if s@[0] == '.' && s@[1] == '.' {
            assert(s@ =~= seq!['.', '.']);
        }
    }
    c0 == '.' && c1 == '.'
}

/// The views of a component list.
pub open spec fn views_of(cs: Seq<String>) -> Seq<Seq<char>> {
    cs.map_values(|s: String| s@)
}

/// A name cut at its `/` separators: a name with none is one component,
/// and every separator starts a new (possibly empty) component.
pub open spec fn spec_split_path(s: Seq<char>) -> Seq<Seq<char>>
    decreases s.len(),
{
    if s.len() == 0 {
        seq![Seq::empty()]
    } else {
        let pre = spec_split_path(s.drop_last());
        if s.last() == '/' {
            pre.push(Seq::empty())
        } else {
            pre.update(pre.len() - 1, pre.last().push(s.last()))
        }
    }
}

/// A split is never empty.
pub proof fn lemma_split_path_nonempty(s: Seq<char>)
    ensures
        spec_split_path(s).len() >= 1,
    decreases s.len(),
{
    if s.len() > 0 {
        lemma_split_path_nonempty(s.drop_last());
    }
}

/// No component of a split holds a separator, so the segments of the
/// joined path are exactly the components that survived normalization.
pub proof fn lemma_split_path_no_slash(s: Seq<char>)
    ensures
        forall|i: int, j: int|
            0 <= i < spec_split_path(s).len() && 0 <= j < spec_split_path(s)[i].len()
                ==> (#[trigger] spec_split_path(s)[i][j]) != '/',
    decreases s.len(),
{
    if s.len() > 0 {
        lemma_split_path_no_slash(s.drop_last());
        let pre = spec_split_path(s.drop_last());
        let cur = spec_split_path(s);
        lemma_split_path_nonempty(s.drop_last());
        if s.last() == '/' {
            assert(forall|i: int| 0 <= i < pre.len() ==> #[trigger] cur[i] == pre[i]);
            assert(cur[pre.len() as int].len() == 0);
        } else {
            let k = pre.len() - 1;
            assert(forall|i: int| 0 <= i < k ==> #[trigger] cur[i] == pre[i]);
            assert(cur[k] == pre[k].push(s.last()));
            assert(forall|j: int| 0 <= j < pre[k].len() ==> #[trigger] cur[k][j] == pre[k][j]);
            assert(cur[k][pre[k].len() as int] == s.last());
        }
    }
}

/// Splits one name at its `/` separators.
pub fn split_component(name: &String) -> (r: Vec<String>)
    ensures
        views_of(r@) == spec_split_path(name@),
{
    let mut out: Vec<String> = Vec::new();
    out.push(String::new());
    proof {
        assert(views_of(out@) =~~= spec_split_path(name@.take(0)));
    }
    let n = name.as_str().unicode_len();
    let mut i: usize = 0;
    while i < n
        invariant
            0 <= i <= n,
            n == name@.len(),
            views_of(out@) == spec_split_path(name@.take(i as int)),
            out@.len() >= 1,
        decreases n - i,
    {
        let ghost pre = spec_split_path(name@.take(i as int));
        proof {
            assert(name@.take(i as int + 1).drop_last() =~= name@.take(i as int));
            assert(name@.take(i as int + 1).last() == name@[i as int]);
        }
        let c = name.as_str().get_char(i);
        if c == '/' {
            out.push(String::new());
            proof {
                assert(views_of(out@) =~~= pre.push(Seq::empty()));
            }
        } else {
            let piece = name.as_str().substring_char(i, i + 1);
            let mut last = match out.pop() {
                Some(s) => s,
                None => String::new(),
            };
            last.append(piece);
            out.push(last);
            proof {
                assert(piece@ =~= seq![name@[i as int]]);
                assert(views_of(out@) =~~= pre.update(pre.len() - 1, pre.last().push(
                    name@[i as int],
                )));
            }
        }
        i = i + 1;
    }
    proof {
        assert(name@.take(name@.len() as int) =~= name@);
    }
    out
}

/// All components of the resolved names, each name cut at its `/`
/// separators, in order.
pub open spec fn spec_name_components(names: Seq<Seq<char>>) -> Seq<Seq<char>>
    decreases names.len(),
{
    if names.len() == 0 {
        Seq::empty()
    } else {
        spec_name_components(names.drop_last()) + spec_split_path(names.last())
    }
}

/// Cuts every resolved name at its `/` separators, keeping the order.
pub fn names_to_components(names: &Vec<String>) -> (r: Vec<String>)
    ensures
        views_of(r@) == spec_name_components(views_of(names@)),
{
    let mut out: Vec<String> = Vec::new();
    let mut i: usize = 0;
    while i < names.len()
        invariant
            0 <= i <= names@.len(),
            views_of(out@) == spec_name_components(views_of(names@).take(i as int)),
        decreases names@.len() - i,
    {
        let ghost pre = views_of(names@).take(i as int);
        proof {
            assert(views_of(names@).take(i as int + 1).drop_last() =~~= pre);
            assert(views_of(names@).take(i as int + 1).last() == names@[i as int]@);
        }
        let pieces = split_component(&names[i]);
        let mut j: usize = 0;
        let ghost opre = views_of(out@);
        let ghost pv = views_of(pieces@);
        while j < pieces.len()
            invariant
                0 <= j <= pieces@.len(),
                pv == views_of(pieces@),
                views_of(out@) == opre + pv.take(j as int),
            decreases pieces@.len() - j,
        {
            out.push(pieces[j].clone());
            proof {
                assert(pv[j as int] == pieces@[j as int]@);
                assert(views_of(out@) =~~= (opre + pv.take(j as int)).push(pv[j as int]));
                assert((opre + pv.take(j as int + 1)) =~~= (opre + pv.take(j as int)).push(
                    pv[j as int],
                ));
            }
            j = j + 1;
        }
        proof {
            assert(pv.take(pv.len() as int) =~~= pv);
            assert(views_of(out@) =~~= spec_name_components(views_of(names@).take(i as int + 1)));
        }
        i = i + 1;
    }
    proof {
        assert(views_of(names@).take(names@.len() as int) =~~= views_of(names@));
    }
    out
}

/// Normalizes a component list lexically.
pub fn normalize(components: &Vec<String>) -> (r: Vec<String>)
    ensures
        views_of(r@) == spec_normalize(views_of(components@)),
{
    let mut out: Vec<String> = Vec::new();
    let mut i: usize = 0;
    while i < components.len()
        invariant
            0 <= i <= components@.len(),
            views_of(out@) == spec_normalize(views_of(components@).take(i as int)),
        decreases components@.len() - i,
    {
        let ghost pre = views_of(components@).take(i as int);
        let ghost step = views_of(components@).take(i as int + 1);
        proof {
            assert(step.drop_last() =~~= pre);
            assert(step.last() == components@[i as int]@);
        }
        let c = &components[i];
        if is_empty_component(c) || is_dot(c) {
            proof {
                assert(views_of(out@) =~~= spec_normalize(step));
            }
        } else if is_dot_dot(c) {
            if out.len() > 0 {
                proof {
                    assert(spec_normalize(pre).len() > 0);
                }
                out.pop();
                proof {
                    assert(views_of(out@) =~~= spec_normalize(pre).drop_last());
                }
            } else {
                proof {
                    assert(spec_normalize(pre).len() == 0);
                }
            }
            proof {
                assert(step.len() > 0);
                assert(step.drop_last() == pre);
                assert(step.last() == c@);
                assert(c@ == seq!['.', '.']);
                assert(spec_normalize(step) == (if spec_normalize(pre).len() > 0 {
                    spec_normalize(pre).drop_last()
                } else {
                    spec_normalize(pre)
                }));
                assert(views_of(out@) == spec_normalize(step));
            }
        } else {
            out.push(c.clone());
            proof {
                assert(c@.len() != 0) by {
                    if c@.len() == 0 {
                        assert(c@ =~= Seq::<char>::empty());
                    }
                }
                assert(views_of(out@) =~~= spec_normalize(pre).push(c@));
                assert(views_of(out@) =~~= spec_normalize(step));
            }
        }
        i = i + 1;
    }
    proof {
        assert(views_of(components@).take(components@.len() as int) =~~= views_of(components@));
    }
    out
}

/// Joins components with `/` separators into one path string.
pub fn join_components(components: &Vec<String>) -> (r: String)
    ensures
        r@ == spec_join(views_of(components@)),
{
    let mut out = String::new();
    let mut i: usize = 0;
    while i < components.len()
        invariant
            0 <= i <= components@.len(),
            out@ == spec_join(views_of(components@).take(i as int)),
        decreases components@.len() - i,
    {
        let ghost pre = views_of(components@).take(i as int);
        proof {
            reveal_strlit("/");
            assert(views_of(components@).take(i as int + 1).drop_last() =~~= pre);
            assert(views_of(components@).take(i as int + 1).last() == components@[i as int]@);
        }
        if i > 0 {
            out.append("/");
            proof {
                assert("/"@ =~= seq!['/']);
            }
        }
        out.append(components[i].as_str());
        proof {
            if i == 0 {
                assert(spec_join(views_of(components@).take(1)) == views_of(components@).take(
                    1,
                )[0]);
                assert(out@ =~= views_of(components@).take(1)[0]);
            }
        }
        i = i + 1;
    }
    proof {
        assert(views_of(components@).take(components@.len() as int) =~~= views_of(components@));
    }
    out
}

/// Trims a just-joined path the way the reader's paths are trimmed: a
/// trailing empty component is dropped, unless it is the only one.
pub trait JffsPathFixer {
    /// Drops a trailing empty component of a multi-component path.
    fn jffs_fix(self) -> Vec<String>;
}

impl JffsPathFixer for Vec<String> {
    fn jffs_fix(self) -> (r: Vec<String>)
        ensures
            r@ == (if self@.len() > 1 && self@.last()@ == Seq::<char>::empty() {
                self@.drop_last()
            } else {
                self@
            }),
    {
        let mut v = self;
        if v.len() > 1 && is_empty_component(&v[v.len() - 1]) {
            v.pop();
        }
        v
    }
}

} // verus!
