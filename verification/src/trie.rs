use vstd::prelude::*;

use crate::text::{
    lemma_lex_total, lemma_lex_trans, lemma_seq_split, lemma_skip_step, lex_less, lex_lt, push_char,
    str_chars,
};

verus! {

/// A node of the trie: the path that leads to it, its children keyed by
/// the next character, and the value stored at exactly this path.
#[derive(Debug)]
pub struct Node<T> {
    prefix: String,
    children: Vec<(char, Node<T>)>,
    value: Option<T>,
}

/// A stored value together with the full path it is stored under.
#[derive(Debug, Clone, PartialEq)]
pub struct NodeRef<'a, T> {
    pub prefix: &'a str,
    pub value: &'a T,
}

/// A naive (not radix) trie from non-empty paths to values.
#[derive(Debug)]
pub struct Trie<T> {
    root: Vec<(char, Node<T>)>,
}

/// Index of the child reached by `c`, if any.
spec fn find_child<T>(children: Seq<(char, Node<T>)>, c: char) -> Option<int> {
    if exists|i: int| 0 <= i < children.len() && children[i].0 == c {
        Some(choose|i: int| 0 <= i < children.len() && children[i].0 == c)
    } else {
        None
    }
}

/// No character leads to two children.
spec fn distinct_chars<T>(children: Seq<(char, Node<T>)>) -> bool {
    forall|i: int, j: int|
        0 <= i < children.len() && 0 <= j < children.len() && i != j ==> children[i].0
            != children[j].0
}

/// `a` is a prefix of `b`.
pub open spec fn is_prefix(a: Seq<char>, b: Seq<char>) -> bool {
    a.len() <= b.len() && b.take(a.len() as int) == a
}

/// Value stored below a list of children at the relative path `k`.
spec fn children_get<T>(children: Seq<(char, Node<T>)>, k: Seq<char>) -> Option<T>
    decreases k.len(), 0nat,
{
    if k.len() == 0 {
        None
    } else {
        match find_child(children, k[0]) {
            Some(i) => children[i].1.get_rel(k.drop_first()),
            None => None,
        }
    }
}

impl<T> Node<T> {
    /// Value stored at the path `k` relative to this node.
    spec fn get_rel(self, k: Seq<char>) -> Option<T>
        decreases k.len(), 1nat,
    {
        if k.len() == 0 {
            self.value
        } else {
            children_get(self.children@, k)
        }
    }

    spec fn nonempty(self) -> bool {
        self.value is Some || self.children@.len() > 0
    }

    /// Structural invariant of the node found at path `at`: it records that
    /// path, its children are reached by distinct characters, and every child
    /// holds a value somewhere below it.
    spec fn inv(self, at: Seq<char>) -> bool
        decreases self,
    {
        &&& self.prefix@ == at
        &&& distinct_chars(self.children@)
        &&& forall|i: int|
            #![trigger self.children@[i]]
            0 <= i < self.children@.len() ==> {
                &&& self.children@[i].1.inv(at.push(self.children@[i].0))
                &&& self.children@[i].1.nonempty()
            }
    }
}

/// Invariant of a list of children hanging below the path `at`.
spec fn children_inv<T>(children: Seq<(char, Node<T>)>, at: Seq<char>) -> bool {
    &&& distinct_chars(children)
    &&& forall|i: int|
        #![trigger children[i]]
        0 <= i < children.len() ==> {
            &&& children[i].1.inv(at.push(children[i].0))
            &&& children[i].1.nonempty()
        }
}

/// Length of the longest prefix of `s` (at least one character) under which
/// `children` hold a value.
spec fn best_children<T>(children: Seq<(char, Node<T>)>, s: Seq<char>) -> Option<nat>
    decreases s.len(), 0nat,
{
    if s.len() == 0 {
        None
    } else {
        match find_child(children, s[0]) {
            Some(j) => match children[j].1.best_rel(s.drop_first()) {
                Some(m) => Some(m + 1),
                None => None,
            },
            None => None,
        }
    }
}

impl<T> Node<T> {
    /// Length of the longest prefix of `s` under which this node holds a value.
    spec fn best_rel(self, s: Seq<char>) -> Option<nat>
        decreases s.len(), 1nat,
    {
        if best_children(self.children@, s) is Some {
            best_children(self.children@, s)
        } else if self.value is Some {
            Some(0)
        } else {
            None
        }
    }
}

/// `r` reports exactly the node `current` points at.
spec fn reports_current<'a, T>(r: Option<NodeRef<'a, T>>, current: Option<&'a Node<T>>) -> bool {
    match current {
        Some(c) => r matches Some(nr) && nr.prefix@ == c.prefix@ && *nr.value == c.value->0,
        None => r is None,
    }
}

/// Some path stored in `m` starts with `s`.
pub open spec fn reaches<T>(m: Map<Seq<char>, T>, s: Seq<char>) -> bool {
    exists|k: Seq<char>| #[trigger] m.contains_key(k) && is_prefix(s, k)
}

/// Every path stored in `m` that starts with `q` is itself a prefix of `s`.
pub open spec fn along<T>(m: Map<Seq<char>, T>, q: Seq<char>, s: Seq<char>) -> bool {
    forall|k: Seq<char>| #[trigger] m.contains_key(k) && is_prefix(q, k) ==> is_prefix(k, s)
}

/// Removing `s` from a trie holding `m` drops the path `k`: `s` itself, and
/// every non-empty prefix `k` of `s` whose whole subtree lies on the way to
/// `s` (its node is pruned together with the value it holds).
pub open spec fn removed_by<T>(m: Map<Seq<char>, T>, k: Seq<char>, s: Seq<char>) -> bool {
    k == s || (is_prefix(k, s) && k.len() > 0 && along(m, k, s))
}

/// `after` is what removing `path` leaves of `before`: the paths that
/// removal drops are gone, the others keep their values.
pub open spec fn removal<T>(before: Map<Seq<char>, T>, after: Map<Seq<char>, T>, path: Seq<char>) -> bool {
    &&& forall|k: Seq<char>|
        #![trigger after.contains_key(k)]
        after.contains_key(k) == (before.contains_key(k) && !removed_by(before, k, path))
    &&& forall|k: Seq<char>| #![trigger after.contains_key(k)] after.contains_key(k) ==> after[k] == before[k]
}

/// `found` is the longest path stored in `m` that is a prefix of `path`, or
/// `None` when no stored path is.
pub open spec fn longest_stored_prefix<T>(m: Map<Seq<char>, T>, path: Seq<char>, found: Option<Seq<char>>) -> bool {
    match found {
        Some(p) => {
            &&& m.contains_key(p)
            &&& is_prefix(p, path)
            &&& forall|k: Seq<char>|
                #![trigger m.contains_key(k)]
                m.contains_key(k) && is_prefix(k, path) ==> k.len() <= p.len()
        },
        None => forall|k: Seq<char>| #![trigger m.contains_key(k)] m.contains_key(k) ==> !is_prefix(k, path),
    }
}

/// Some value is stored at `s` or below it.
spec fn n_reaches<T>(n: Node<T>, s: Seq<char>) -> bool {
    exists|k: Seq<char>| #[trigger] n.get_rel(k) is Some && is_prefix(s, k)
}

/// Every value stored at `q` or below it lies on the way to `s`.
spec fn n_along<T>(n: Node<T>, q: Seq<char>, s: Seq<char>) -> bool {
    forall|k: Seq<char>| #[trigger] n.get_rel(k) is Some && is_prefix(q, k) ==> is_prefix(k, s)
}

/// Removing `s` drops the value at `k`.
spec fn n_deleted<T>(n: Node<T>, k: Seq<char>, s: Seq<char>) -> bool {
    k == s || (is_prefix(k, s) && n_along(n, k, s))
}

spec fn c_reaches<T>(ch: Seq<(char, Node<T>)>, s: Seq<char>) -> bool {
    exists|k: Seq<char>| #[trigger] children_get(ch, k) is Some && is_prefix(s, k)
}

spec fn c_along<T>(ch: Seq<(char, Node<T>)>, q: Seq<char>, s: Seq<char>) -> bool {
    forall|k: Seq<char>| #[trigger] children_get(ch, k) is Some && is_prefix(q, k) ==> is_prefix(k, s)
}

spec fn c_deleted<T>(ch: Seq<(char, Node<T>)>, k: Seq<char>, s: Seq<char>) -> bool {
    k == s || (is_prefix(k, s) && k.len() > 0 && c_along(ch, k, s))
}

impl<T> Trie<T> {
    /// The paths stored in the trie and their values.
    pub closed spec fn view(self) -> Map<Seq<char>, T> {
        Map::new(
            |k: Seq<char>| children_get(self.root@, k) is Some,
            |k: Seq<char>| children_get(self.root@, k)->0,
        )
    }

    pub closed spec fn wf(self) -> bool {
        children_inv(self.root@, Seq::empty())
    }
}


proof fn lemma_inv_children<T>(n: Node<T>, at: Seq<char>)
    requires
        n.inv(at),
    ensures
        children_inv(n.children@, at),
        n.prefix@ == at,
{

}

proof fn lemma_find_child<T>(children: Seq<(char, Node<T>)>, j: int)
    requires
        distinct_chars(children),
        0 <= j < children.len(),
    ensures
        find_child(children, children[j].0) == Some(j),
{
}

/// Position of the child reached by `c`.
fn find_index<T>(children: &Vec<(char, Node<T>)>, c: char) -> (r: Option<usize>)
    requires
        distinct_chars(children@),
    ensures
        r matches Some(j) ==> j < children@.len() && children@[j as int].0 == c,
        r is None ==> forall|i: int| 0 <= i < children@.len() ==> children@[i].0 != c,
        r is None ==> find_child(children@, c) is None,
        r matches Some(j) ==> find_child(children@, c) == Some(j as int),
{
    let mut i: usize = 0;
    while i < children.len()
        invariant
            i <= children@.len(),
            distinct_chars(children@),
            forall|k: int| 0 <= k < i ==> children@[k].0 != c,
        decreases children@.len() - i,
    {
        if children[i].0 == c {
            proof {
                lemma_find_child(children@, i as int);
            }
            return Some(i);
        }
        i = i + 1;
    }
    None
}

/// Value below `children` at the path `path[i..]`.
fn children_lookup<'a, T>(children: &'a Vec<(char, Node<T>)>, path: &Vec<char>, i: usize) -> (r:
    Option<&'a T>)
    requires
        i <= path@.len(),
        children_inv(children@, path@.take(i as int)),
    ensures
        r is Some == children_get(children@, path@.skip(i as int)) is Some,
        r is Some ==> *r->0 == children_get(children@, path@.skip(i as int))->0,
    decreases path@.len() - i, 0nat,
{
    if i == path.len() {
        return None;
    }
    proof {
        lemma_skip_step(path@, i as int);
    }
    match find_index(children, path[i]) {
        None => None,
        Some(j) => {
            proof {
                assert(path@.take(i as int).push(path@[i as int]) =~= path@.take(i + 1));
            }
            children[j].1.get(path, i + 1)
        },
    }
}

impl<T> Node<T> {
    /// Value stored at `path[i..]` relative to this node.
    fn get<'a>(&'a self, path: &Vec<char>, i: usize) -> (r: Option<&'a T>)
        requires
            i <= path@.len(),
            self.inv(path@.take(i as int)),
        ensures
            r is Some == self.get_rel(path@.skip(i as int)) is Some,
            r is Some ==> *r->0 == self.get_rel(path@.skip(i as int))->0,
        decreases path@.len() - i, 1nat,
    {
        if i == path.len() {
            assert(path@.skip(i as int).len() == 0);
            self.value.as_ref()
        } else {
            proof {
                lemma_inv_children(*self, path@.take(i as int));
            }
            children_lookup(&self.children, path, i)
        }
    }
}

proof fn lemma_get_push<T>(old: Seq<(char, Node<T>)>, e: (char, Node<T>), k: Seq<char>)
    requires
        distinct_chars(old.push(e)),
        k.len() > 0,
        k[0] != e.0,
    ensures
        children_get(old.push(e), k) == children_get(old, k),
{
    let new = old.push(e);
    if let Some(i) = find_child(old, k[0]) {
        assert(new[i] == old[i]);
        lemma_find_child(new, i);
    } else {
        assert forall|i: int| 0 <= i < new.len() implies new[i].0 != k[0] by {
            if i < old.len() {
                assert(new[i] == old[i]);
            }
        }
    }
}

proof fn lemma_get_update<T>(old: Seq<(char, Node<T>)>, j: int, e: (char, Node<T>), k: Seq<char>)
    requires
        distinct_chars(old),
        0 <= j < old.len(),
        old[j].0 == e.0,
        k.len() > 0,
        k[0] != e.0,
    ensures
        children_get(old.update(j, e), k) == children_get(old, k),
        distinct_chars(old.update(j, e)),
{
    let new = old.update(j, e);
    if let Some(i) = find_child(old, k[0]) {
        assert(new[i] == old[i]);
        lemma_find_child(new, i);
    } else {
        assert forall|i: int| 0 <= i < new.len() implies new[i].0 != k[0] by {
            if i != j {
                assert(new[i] == old[i]);
            }
        }
    }
}

proof fn lemma_take_push(p: Seq<char>, i: int)
    requires
        0 <= i < p.len(),
    ensures
        p.take(i).push(p[i]) == p.take(i + 1),
{
    assert(p.take(i).push(p[i]) =~= p.take(i + 1));
}

/// Stores `value` at `path[i..]` below `children`, creating nodes on the way.
#[verifier::rlimit(30)]
fn children_insert<T>(
    children: &mut Vec<(char, Node<T>)>,
    prefix: &String,
    path: &Vec<char>,
    i: usize,
    value: T,
) -> (r: Option<T>)
    requires
        i < path@.len(),
        prefix@ == path@.take(i as int),
        children_inv(old(children)@, path@.take(i as int)),
    ensures
        children_inv(final(children)@, path@.take(i as int)),
        final(children)@.len() > 0,
        r == children_get(old(children)@, path@.skip(i as int)),
        forall|k: Seq<char>|
            #![trigger children_get(final(children)@, k)]
            children_get(final(children)@, k) == if k == path@.skip(i as int) {
                Some(value)
            } else {
                children_get(old(children)@, k)
            },
    decreases path@.len() - i, 0nat,
{
    let ghost at = path@.take(i as int);
    let ghost s = path@.skip(i as int);
    let ghost old_children = children@;
    proof {
        lemma_skip_step(path@, i as int);
        lemma_take_push(path@, i as int);
    }
    let c = path[i];
    assert(i + 1 <= path.len());
    match find_index(children, c) {
        Some(j) => {
            let (ch, mut child) = children.remove(j);
            proof {
                lemma_inv_children(child, at.push(c));
            }
            let ghost child_before = child;
            let r = child.insert(path, i + 1, value);
            children.insert(j, (ch, child));
            proof {
                assert(children@ =~= old_children.update(j as int, (ch, child)));
                assert(old_children[j as int] == (ch, child_before));
                assert(distinct_chars(children@)) by {
                    assert forall|x: int, y: int|
                        0 <= x < children@.len() && 0 <= y < children@.len() && x != y
                        implies children@[x].0 != children@[y].0 by {
                        assert(children@[x].0 == old_children[x].0);
                        assert(children@[y].0 == old_children[y].0);
                    }
                }
                lemma_find_child(children@, j as int);
                assert forall|k: Seq<char>|
                    #![trigger children_get(children@, k)]
                    children_get(children@, k) == if k == s {
                        Some(value)
                    } else {
                        children_get(old_children, k)
                    } by {
                    if k.len() > 0 && k[0] != c {
                        lemma_get_update(old_children, j as int, (ch, child), k);
                    }
                    if k.len() > 0 && k[0] == c {
                        assert(children_get(children@, k) == child.get_rel(k.drop_first()));
                        assert(children_get(old_children, k) == child_before.get_rel(k.drop_first()));
                        if k.drop_first() == s.drop_first() {
                            lemma_seq_split(k, s);
                        }
                    }
                }
                assert forall|x: int| #![trigger children@[x]] 0 <= x < children@.len() implies {
                    &&& children@[x].1.inv(at.push(children@[x].0))
                    &&& children@[x].1.nonempty()
                } by {
                    if x != j {
                        assert(children@[x] == old_children[x]);
                    }
                }
            }
            r
        },
        None => {
            let mut child_prefix = prefix.clone();
            push_char(&mut child_prefix, c);
            let mut child = Node { prefix: child_prefix, children: Vec::new(), value: None };
            assert(child.inv(at.push(c)));
            let ghost child0 = child;
            let r = child.insert(path, i + 1, value);
            children.push((c, child));
            proof {
                assert(children@ =~= old_children.push((c, child)));
                assert(r is None) by {
                    let s1 = path@.skip(i + 1);
                    if s1.len() > 0 {
                        assert(find_child(child0.children@, s1[0]) is None);
                    }
                }
                assert(distinct_chars(children@)) by {
                    assert forall|x: int, y: int|
                        0 <= x < children@.len() && 0 <= y < children@.len() && x != y
                        implies children@[x].0 != children@[y].0 by {
                        if x < old_children.len() {
                            assert(children@[x] == old_children[x]);
                        }
                        if y < old_children.len() {
                            assert(children@[y] == old_children[y]);
                        }
                    }
                }
                lemma_find_child(children@, old_children.len() as int);
                assert forall|k: Seq<char>|
                    #![trigger children_get(children@, k)]
                    children_get(children@, k) == if k == s {
                        Some(value)
                    } else {
                        children_get(old_children, k)
                    } by {
                    if k.len() > 0 && k[0] != c {
                        lemma_get_push(old_children, (c, child), k);
                    }
                    if k.len() > 0 && k[0] == c {
                        assert(children_get(children@, k) == child.get_rel(k.drop_first()));
                        assert(children_get(old_children, k) is None);
                        let k1 = k.drop_first();
                        assert(child0.get_rel(k1) is None) by {
                            if k1.len() > 0 {
                                assert(find_child(child0.children@, k1[0]) is None);
                            }
                        }
                        if k1 == s.drop_first() {
                            lemma_seq_split(k, s);
                        }
                    }
                }
                assert forall|x: int| #![trigger children@[x]] 0 <= x < children@.len() implies {
                    &&& children@[x].1.inv(at.push(children@[x].0))
                    &&& children@[x].1.nonempty()
                } by {
                    if x < old_children.len() {
                        assert(children@[x] == old_children[x]);
                    }
                }
            }
            r
        },
    }
}

impl<T> Node<T> {
    /// Stores `value` at `path[i..]` relative to this node.
    #[verifier::rlimit(30)]
    fn insert(&mut self, path: &Vec<char>, i: usize, value: T) -> (r: Option<T>)
        requires
            i <= path@.len(),
            old(self).inv(path@.take(i as int)),
        ensures
            final(self).inv(path@.take(i as int)),
            final(self).nonempty(),
            r == old(self).get_rel(path@.skip(i as int)),
            forall|k: Seq<char>|
                #![trigger final(self).get_rel(k)]
                final(self).get_rel(k) == if k == path@.skip(i as int) {
                    Some(value)
                } else {
                    old(self).get_rel(k)
                },
        decreases path@.len() - i, 1nat,
    {
        proof {
            lemma_inv_children(*self, path@.take(i as int));
        }
        if i == path.len() {
            assert(path@.skip(i as int) =~= Seq::<char>::empty());
            let r = self.value.take();
            self.value = Some(value);
            proof {
                assert forall|k: Seq<char>|
                    #![trigger self.get_rel(k)]
                    self.get_rel(k) == if k == path@.skip(i as int) {
                        Some(value)
                    } else {
                        old(self).get_rel(k)
                    } by {
                    if k.len() > 0 {
                        assert(k != path@.skip(i as int));
                        assert(self.children@ == old(self).children@);
                    } else {
                        assert(k =~= path@.skip(i as int));
                    }
                }
            }
            r
        } else {
            let r = children_insert(&mut self.children, &self.prefix, path, i, value);
            proof {
                lemma_skip_step(path@, i as int);
                assert forall|k: Seq<char>|
                    #![trigger self.get_rel(k)]
                    self.get_rel(k) == if k == path@.skip(i as int) {
                        Some(value)
                    } else {
                        old(self).get_rel(k)
                    } by {
                    if k.len() > 0 {
                        assert(children_get(self.children@, k) == children_get(old(self).children@, k) || k == path@.skip(i as int));
                    }
                }
            }
            r
        }
    }
}

impl<T> Trie<T> {
    /// Value stored under `path`; `None` for the empty path.
    pub fn get(&self, path: &str) -> (r: Option<&T>)
        requires
            self.wf(),
        ensures
            r is Some == self@.contains_key(path@),
            r is Some ==> *r->0 == self@[path@],
    {
        let chars = str_chars(path);
        assert(chars@.take(0) =~= Seq::<char>::empty());
        assert(chars@.skip(0) =~= chars@);
        children_lookup(&self.root, &chars, 0)
    }
}

proof fn lemma_take_drop_first(s: Seq<char>, m: int)
    requires
        1 <= m <= s.len(),
    ensures
        s.take(m).len() > 0,
        s.take(m)[0] == s[0],
        s.take(m).drop_first() == s.drop_first().take(m - 1),
{
    assert(s.take(m).drop_first() =~= s.drop_first().take(m - 1));
}

proof fn lemma_best_children<T>(children: Seq<(char, Node<T>)>, s: Seq<char>)
    ensures
        best_children(children, s) matches Some(m) ==> {
            &&& 1 <= m <= s.len()
            &&& children_get(children, s.take(m as int)) is Some
            &&& forall|m2: int| m < m2 <= s.len() ==> children_get(children, #[trigger] s.take(m2)) is None
        },
        best_children(children, s) is None ==> forall|m2: int|
            0 <= m2 <= s.len() ==> children_get(children, #[trigger] s.take(m2)) is None,
    decreases s.len(), 0nat,
{
    if s.len() > 0 {
        assert(children_get(children, s.take(0)) is None);
        match find_child(children, s[0]) {
            Some(j) => {
                let child = children[j].1;
                child.lemma_best_rel(s.drop_first());
                assert forall|m2: int| 1 <= m2 <= s.len() implies children_get(children, #[trigger] s.take(m2)) == child.get_rel(s.drop_first().take(m2 - 1)) by {
                    lemma_take_drop_first(s, m2);
                }
            },
            None => {
                assert forall|m2: int| 1 <= m2 <= s.len() implies children_get(children, #[trigger] s.take(m2)) is None by {
                    lemma_take_drop_first(s, m2);
                }
            },
        }
    } else {
        assert forall|m2: int| 0 <= m2 <= s.len() implies children_get(children, #[trigger] s.take(m2)) is None by {}
    }
}

impl<T> Node<T> {
    proof fn lemma_best_rel(self, s: Seq<char>)
        ensures
            self.best_rel(s) matches Some(m) ==> {
                &&& m <= s.len()
                &&& self.get_rel(s.take(m as int)) is Some
                &&& forall|m2: int| m < m2 <= s.len() ==> self.get_rel(#[trigger] s.take(m2)) is None
            },
            self.best_rel(s) is None ==> forall|m2: int|
                0 <= m2 <= s.len() ==> self.get_rel(#[trigger] s.take(m2)) is None,
        decreases s.len(), 1nat,
    {
        lemma_best_children(self.children@, s);
        assert(s.take(0).len() == 0);
        assert forall|m2: int| 1 <= m2 <= s.len() implies self.get_rel(#[trigger] s.take(m2)) == children_get(self.children@, s.take(m2)) by {}
    }
}

proof fn lemma_skip_take(p: Seq<char>, i: int, m: int)
    requires
        0 <= i <= p.len(),
        0 <= m <= p.len() - i,
    ensures
        p.take(i) + p.skip(i).take(m) == p.take(i + m),
{
    assert(p.take(i) + p.skip(i).take(m) =~= p.take(i + m));
}

/// Longest stored prefix of `path`, looking below `children` from position `i`
/// and falling back on `current`.
fn children_longest<'a, T>(
    children: &'a Vec<(char, Node<T>)>,
    path: &Vec<char>,
    i: usize,
    current: Option<&'a Node<T>>,
) -> (r: Option<NodeRef<'a, T>>)
    requires
        i <= path@.len(),
        children_inv(children@, path@.take(i as int)),
        current matches Some(c) ==> c.value is Some,
    ensures
        match best_children(children@, path@.skip(i as int)) {
            Some(m) => r matches Some(nr) && nr.prefix@ == path@.take(i + m) && *nr.value
                == children_get(children@, path@.skip(i as int).take(m as int))->0,
            None => reports_current(r, current),
        },
    decreases path@.len() - i, 0nat,
{
    if i == path.len() {
        assert(path@.skip(i as int).len() == 0);
        return report(current);
    }
    proof {
        lemma_skip_step(path@, i as int);
        lemma_take_push(path@, i as int);
    }
    match find_index(children, path[i]) {
        None => report(current),
        Some(j) => {
            let r = children[j].1.longest_prefix(path, i + 1, current);
            proof {
                let s = path@.skip(i as int);
                let child = children@[j as int].1;
                child.lemma_best_rel(s.drop_first());
                match child.best_rel(s.drop_first()) {
                    Some(m) => {
                        lemma_skip_take(path@, i as int, (m + 1) as int);
                        lemma_skip_take(path@, i + 1, m as int);
                        lemma_take_drop_first(s, (m + 1) as int);
                    },
                    None => {},
                }
            }
            r
        },
    }
}

/// The reference to the value held by `current`.
fn report<'a, T>(current: Option<&'a Node<T>>) -> (r: Option<NodeRef<'a, T>>)
    requires
        current matches Some(c) ==> c.value is Some,
    ensures
        reports_current(r, current),
{
    match current {
        None => None,
        Some(n) => match n.value.as_ref() {
            Some(val) => Some(NodeRef { prefix: n.prefix.as_str(), value: val }),
            None => None,
        },
    }
}

impl<T> Node<T> {
    /// Longest stored prefix of `path`, from this node (at position `i`) on,
    /// falling back on `current`.
    fn longest_prefix<'a>(&'a self, path: &Vec<char>, i: usize, current: Option<&'a Node<T>>) -> (r:
        Option<NodeRef<'a, T>>)
        requires
            i <= path@.len(),
            self.inv(path@.take(i as int)),
            current matches Some(c) ==> c.value is Some,
        ensures
            match self.best_rel(path@.skip(i as int)) {
                Some(m) => r matches Some(nr) && nr.prefix@ == path@.take(i + m) && *nr.value
                    == self.get_rel(path@.skip(i as int).take(m as int))->0,
                None => reports_current(r, current),
            },
        decreases path@.len() - i, 1nat,
    {
        proof {
            lemma_inv_children(*self, path@.take(i as int));
        }
        let new_current = if self.value.is_some() {
            Some(self)
        } else {
            current
        };
        let r = children_longest(&self.children, path, i, new_current);
        proof {
            let s = path@.skip(i as int);
            assert(s.take(0).len() == 0);
            assert(path@.take(i + 0) == path@.take(i as int));
            lemma_best_children(self.children@, s);
            match best_children(self.children@, s) {
                Some(m) => {
                    assert(self.get_rel(s.take(m as int)) == children_get(self.children@, s.take(m as int)));
                },
                None => {},
            }
        }
        r
    }
}

proof fn lemma_cons_drop(c: char, k: Seq<char>)
    ensures
        (seq![c] + k).len() > 0,
        (seq![c] + k)[0] == c,
        (seq![c] + k).drop_first() == k,
{
    assert((seq![c] + k).drop_first() =~= k);
}

proof fn lemma_prefix_step(a: Seq<char>, b: Seq<char>)
    requires
        a.len() > 0,
        b.len() > 0,
        a[0] == b[0],
    ensures
        is_prefix(a, b) == is_prefix(a.drop_first(), b.drop_first()),
{
    if is_prefix(a, b) {
        assert(b.drop_first().take(a.drop_first().len() as int) =~= a.drop_first());
    }
    if is_prefix(a.drop_first(), b.drop_first()) {
        assert(b.take(a.len() as int) =~= a) by {
            assert forall|x: int| 0 <= x < a.len() implies b.take(a.len() as int)[x] == a[x] by {
                if x > 0 {
                    assert(a[x] == a.drop_first()[x - 1]);
                    assert(b[x] == b.drop_first()[x - 1]);
                }
            }
        }
    }
}

proof fn lemma_empty_prefix(k: Seq<char>)
    ensures
        is_prefix(Seq::<char>::empty(), k),
{
    assert(k.take(0) =~= Seq::<char>::empty());
}

proof fn lemma_prefix_first(a: Seq<char>, b: Seq<char>)
    requires
        a.len() > 0,
        is_prefix(a, b),
    ensures
        b.len() > 0,
        b[0] == a[0],
{
    assert(b.take(a.len() as int)[0] == b[0]);
}

impl<T> Node<T> {
    /// A well-formed non-empty node holds some value.
    proof fn lemma_has_key(self, at: Seq<char>)
        requires
            self.inv(at),
            self.nonempty(),
        ensures
            exists|k: Seq<char>| #[trigger] self.get_rel(k) is Some,
        decreases self,
    {
        if self.value is Some {
            assert(self.get_rel(Seq::<char>::empty()) is Some);
        } else {
            lemma_inv_children(self, at);
            let c = self.children@[0].0;
            let child = self.children@[0].1;
            assert(child.inv(at.push(c)));
            child.lemma_has_key(at.push(c));
            let k1 = choose|k: Seq<char>| #[trigger] child.get_rel(k) is Some;
            lemma_cons_drop(c, k1);
            lemma_find_child(self.children@, 0);
            assert(self.get_rel(seq![c] + k1) is Some);
        }
    }
}

/// Keys below the child `j` are that child's keys behind its character.
proof fn lemma_child_get<T>(ch: Seq<(char, Node<T>)>, j: int, k: Seq<char>)
    requires
        distinct_chars(ch),
        0 <= j < ch.len(),
        k.len() > 0,
        k[0] == ch[j].0,
    ensures
        children_get(ch, k) == ch[j].1.get_rel(k.drop_first()),
{
    lemma_find_child(ch, j);
}

/// Removes the value at `path[i..]` below `children`, pruning the child that
/// is left without values.
#[verifier::rlimit(30)]
fn children_remove<T>(children: &mut Vec<(char, Node<T>)>, path: &Vec<char>, i: usize) -> (r: bool)
    requires
        i < path@.len(),
        children_inv(old(children)@, path@.take(i as int)),
    ensures
        children_inv(final(children)@, path@.take(i as int)),
        !c_reaches(old(children)@, path@.skip(i as int)) ==> !r && forall|k: Seq<char>|
            #![trigger children_get(final(children)@, k)]
            children_get(final(children)@, k) == children_get(old(children)@, k),
        c_reaches(old(children)@, path@.skip(i as int)) ==> r == c_along(
            old(children)@,
            path@.skip(i as int).take(1),
            path@.skip(i as int),
        ),
        c_reaches(old(children)@, path@.skip(i as int)) ==> forall|k: Seq<char>|
            #![trigger children_get(final(children)@, k)]
            children_get(final(children)@, k) == if c_deleted(
                old(children)@,
                k,
                path@.skip(i as int),
            ) {
                None
            } else {
                children_get(old(children)@, k)
            },
        r ==> final(children)@.len() + 1 == old(children)@.len(),
        !r ==> final(children)@.len() == old(children)@.len(),
    decreases path@.len() - i, 0nat,
{
    let ghost at = path@.take(i as int);
    let ghost s = path@.skip(i as int);
    let ghost old_ch = children@;
    proof {
        lemma_skip_step(path@, i as int);
        lemma_take_push(path@, i as int);
    }
    let c = path[i];
    assert(i + 1 <= path.len());
    match find_index(children, c) {
        None => {
            proof {
                assert forall|k: Seq<char>| #[trigger] children_get(old_ch, k) is Some implies !is_prefix(s, k) by {
                    if is_prefix(s, k) {
                        lemma_prefix_first(s, k);
                    }
                }
            }
            false
        },
        Some(j) => {
            let (ch, mut child) = children.remove(j);
            proof {
                lemma_inv_children(child, at.push(c));
            }
            let ghost child0 = child;
            let ghost s1 = s.drop_first();
            assert(s1 == path@.skip(i + 1));
            let rr = child.remove(path, i + 1);
            proof {
                // The child reaches `s1` exactly when the children reach `s`.
                if c_reaches(old_ch, s) {
                    let k = choose|k: Seq<char>| #[trigger] children_get(old_ch, k) is Some && is_prefix(s, k);
                    lemma_prefix_first(s, k);
                    lemma_child_get(old_ch, j as int, k);
                    lemma_prefix_step(s, k);
                    assert(child0.get_rel(k.drop_first()) is Some);
                    assert(n_reaches(child0, s1));
                }
                if n_reaches(child0, s1) {
                    let k1 = choose|k: Seq<char>| #[trigger] child0.get_rel(k) is Some && is_prefix(s1, k);
                    lemma_cons_drop(c, k1);
                    lemma_child_get(old_ch, j as int, seq![c] + k1);
                    lemma_prefix_step(s, seq![c] + k1);
                    assert(children_get(old_ch, seq![c] + k1) is Some);
                    assert(c_reaches(old_ch, s));
                }
                // Along-ness of the child's subtree.
                assert(n_along(child0, Seq::<char>::empty(), s1) == c_along(old_ch, s.take(1), s)) by {
                    if n_along(child0, Seq::<char>::empty(), s1) {
                        assert forall|k: Seq<char>| #[trigger] children_get(old_ch, k) is Some && is_prefix(s.take(1), k) implies is_prefix(k, s) by {
                            lemma_prefix_first(s.take(1), k);
                            lemma_child_get(old_ch, j as int, k);
                            assert(child0.get_rel(k.drop_first()) is Some);
                            lemma_empty_prefix(k.drop_first());
                            lemma_prefix_step(k, s);
                        }
                    }
                    if c_along(old_ch, s.take(1), s) {
                        assert forall|k1: Seq<char>| #[trigger] child0.get_rel(k1) is Some && is_prefix(Seq::<char>::empty(), k1) implies is_prefix(k1, s1) by {
                            lemma_cons_drop(c, k1);
                            lemma_child_get(old_ch, j as int, seq![c] + k1);
                            assert(children_get(old_ch, seq![c] + k1) is Some);
                            assert(is_prefix(s.take(1), seq![c] + k1)) by {
                                assert((seq![c] + k1).take(1) =~= s.take(1));
                            }
                            lemma_prefix_step(seq![c] + k1, s);
                        }
                    }
                }
            }
            if rr {
                proof {
                    assert(children@ =~= old_ch.remove(j as int));
                    assert(children_inv(children@, at)) by {
                        assert forall|x: int, y: int|
                            0 <= x < children@.len() && 0 <= y < children@.len() && x != y
                            implies children@[x].0 != children@[y].0 by {
                            let ox = if x < j { x } else { x + 1 };
                            let oy = if y < j { y } else { y + 1 };
                            assert(children@[x] == old_ch[ox]);
                            assert(children@[y] == old_ch[oy]);
                        }
                        assert forall|x: int| #![trigger children@[x]] 0 <= x < children@.len() implies {
                            &&& children@[x].1.inv(at.push(children@[x].0))
                            &&& children@[x].1.nonempty()
                        } by {
                            let ox = if x < j { x } else { x + 1 };
                            assert(children@[x] == old_ch[ox]);
                        }
                    }
                    assert forall|k: Seq<char>|
                        #![trigger children_get(children@, k)]
                        children_get(children@, k) == if c_deleted(old_ch, k, s) {
                            None
                        } else {
                            children_get(old_ch, k)
                        } by {
                        if k.len() > 0 {
                            if k[0] == c {
                                // The whole child is gone.
                                assert(find_child(children@, c) is None) by {
                                    assert forall|x: int| 0 <= x < children@.len() implies children@[x].0 != c by {
                                        let ox = if x < j { x } else { x + 1 };
                                        assert(children@[x] == old_ch[ox]);
                                    }
                                }
                                lemma_child_get(old_ch, j as int, k);
                                if children_get(old_ch, k) is Some {
                                    assert(is_prefix(s.take(1), k)) by {
                                        assert(k.take(1) =~= s.take(1));
                                    }
                                    assert(is_prefix(k, s));
                                    assert(c_along(old_ch, k, s)) by {
                                        assert forall|k2: Seq<char>| #[trigger] children_get(old_ch, k2) is Some && is_prefix(k, k2) implies is_prefix(k2, s) by {
                                            lemma_prefix_first(k, k2);
                                            assert(is_prefix(s.take(1), k2)) by {
                                                assert(k2.take(1) =~= s.take(1));
                                            }
                                        }
                                    }
                                }
                            } else {
                                // Other children are untouched.
                                if is_prefix(k, s) {
                                    lemma_prefix_first(k, s);
                                }
                                match find_child(old_ch, k[0]) {
                                    Some(x) => {
                                        let nx = if x < j { x } else { x - 1 };
                                        assert(children@[nx] == old_ch[x]);
                                        lemma_find_child(children@, nx);
                                    },
                                    None => {
                                        assert forall|x: int| 0 <= x < children@.len() implies children@[x].0 != k[0] by {
                                            let ox = if x < j { x } else { x + 1 };
                                            assert(children@[x] == old_ch[ox]);
                                        }
                                    },
                                }
                            }
                        }
                    }
                }
                true
            } else {
                children.insert(j, (ch, child));
                proof {
                    assert(children@ =~= old_ch.update(j as int, (ch, child)));
                    assert(distinct_chars(children@)) by {
                        assert forall|x: int, y: int|
                            0 <= x < children@.len() && 0 <= y < children@.len() && x != y
                            implies children@[x].0 != children@[y].0 by {
                            assert(children@[x].0 == old_ch[x].0);
                            assert(children@[y].0 == old_ch[y].0);
                        }
                    }
                    assert forall|x: int| #![trigger children@[x]] 0 <= x < children@.len() implies {
                        &&& children@[x].1.inv(at.push(children@[x].0))
                        &&& children@[x].1.nonempty()
                    } by {
                        if x != j {
                            assert(children@[x] == old_ch[x]);
                        }
                    }
                    lemma_find_child(children@, j as int);
                    assert forall|k: Seq<char>|
                        #![trigger children_get(children@, k)]
                        (c_reaches(old_ch, s) ==> children_get(children@, k) == if c_deleted(old_ch, k, s) {
                            None
                        } else {
                            children_get(old_ch, k)
                        }) && (!c_reaches(old_ch, s) ==> children_get(children@, k) == children_get(old_ch, k)) by {
                        if k.len() > 0 {
                            if k[0] == c {
                                lemma_child_get(old_ch, j as int, k);
                                lemma_child_get(children@, j as int, k);
                                let k1 = k.drop_first();
                                if c_reaches(old_ch, s) {
                                    // Relate the deletion conditions.
                                    if k1 == s1 {
                                        lemma_seq_split(k, s);
                                    }
                                    if k == s {
                                        assert(k1 == s1);
                                    }
                                    lemma_prefix_step(k, s);
                                    assert(n_along(child0, k1, s1) == c_along(old_ch, k, s)) by {
                                        if n_along(child0, k1, s1) {
                                            assert forall|k2: Seq<char>| #[trigger] children_get(old_ch, k2) is Some && is_prefix(k, k2) implies is_prefix(k2, s) by {
                                                lemma_prefix_first(k, k2);
                                                lemma_child_get(old_ch, j as int, k2);
                                                lemma_prefix_step(k, k2);
                                                assert(child0.get_rel(k2.drop_first()) is Some);
                                                lemma_prefix_step(k2, s);
                                            }
                                        }
                                        if c_along(old_ch, k, s) {
                                            assert forall|k2: Seq<char>| #[trigger] child0.get_rel(k2) is Some && is_prefix(k1, k2) implies is_prefix(k2, s1) by {
                                                lemma_cons_drop(c, k2);
                                                lemma_child_get(old_ch, j as int, seq![c] + k2);
                                                lemma_prefix_step(k, seq![c] + k2);
                                                assert(children_get(old_ch, seq![c] + k2) is Some);
                                                lemma_prefix_step(seq![c] + k2, s);
                                            }
                                        }
                                    }
                                }
                            } else {
                                lemma_get_update(old_ch, j as int, (ch, child), k);
                                if is_prefix(k, s) {
                                    lemma_prefix_first(k, s);
                                }
                            }
                        }
                    }
                }
                false
            }
        },
    }
}

impl<T> Node<T> {
    /// Removes the value at `path[i..]` relative to this node. Returns whether
    /// this node is left without children and may be pruned by its parent.
    #[verifier::rlimit(30)]
    fn remove(&mut self, path: &Vec<char>, i: usize) -> (r: bool)
        requires
            i <= path@.len(),
            old(self).inv(path@.take(i as int)),
            old(self).nonempty(),
        ensures
            final(self).inv(path@.take(i as int)),
            !n_reaches(*old(self), path@.skip(i as int)) ==> !r && forall|k: Seq<char>|
                #![trigger final(self).get_rel(k)]
                final(self).get_rel(k) == old(self).get_rel(k),
            n_reaches(*old(self), path@.skip(i as int)) ==> r == n_along(
                *old(self),
                Seq::<char>::empty(),
                path@.skip(i as int),
            ),
            n_reaches(*old(self), path@.skip(i as int)) ==> forall|k: Seq<char>|
                #![trigger final(self).get_rel(k)]
                (k.len() > 0 || !r) ==> final(self).get_rel(k) == if n_deleted(
                    *old(self),
                    k,
                    path@.skip(i as int),
                ) {
                    None
                } else {
                    old(self).get_rel(k)
                },
            !r ==> final(self).nonempty(),
            r ==> final(self).children@.len() == 0,
        decreases path@.len() - i, 1nat,
    {
        let ghost at = path@.take(i as int);
        let ghost s = path@.skip(i as int);
        let ghost old_self = *self;
        proof {
            lemma_inv_children(*self, at);
            self.lemma_has_key(at);
        }
        if i == path.len() {
            assert(s =~= Seq::<char>::empty());
            self.value = None;
            let r = self.children.len() == 0;
            proof {
                assert(n_reaches(old_self, s)) by {
                    let k = choose|k: Seq<char>| #[trigger] old_self.get_rel(k) is Some;
                    lemma_empty_prefix(k);
                }
                assert(r == n_along(old_self, Seq::<char>::empty(), s)) by {
                    if r {
                        assert forall|k: Seq<char>| #[trigger] old_self.get_rel(k) is Some && is_prefix(Seq::<char>::empty(), k) implies is_prefix(k, s) by {
                            if k.len() > 0 {
                                assert(find_child(old_self.children@, k[0]) is None);
                            } else {
                                assert(k =~= s);
                            }
                        }
                    } else {
                        let c0 = old_self.children@[0].0;
                        let child = old_self.children@[0].1;
                        child.lemma_has_key(at.push(c0));
                        let k1 = choose|k: Seq<char>| #[trigger] child.get_rel(k) is Some;
                        lemma_cons_drop(c0, k1);
                        lemma_child_get(old_self.children@, 0, seq![c0] + k1);
                        assert(old_self.get_rel(seq![c0] + k1) is Some);
                        lemma_empty_prefix(seq![c0] + k1);
                        assert(!is_prefix(seq![c0] + k1, s));
                    }
                }
                assert forall|k: Seq<char>|
                    #![trigger self.get_rel(k)]
                    (k.len() > 0 || !r) ==> self.get_rel(k) == if n_deleted(old_self, k, s) {
                        None
                    } else {
                        old_self.get_rel(k)
                    } by {
                    if k.len() > 0 {
                        assert(k != s);
                        assert(!is_prefix(k, s));
                    } else {
                        assert(k =~= s);
                    }
                }
            }
            r
        } else {
            let rc = children_remove(&mut self.children, path, i);
            let r = rc && self.children.len() == 0;
            proof {
                lemma_skip_step(path@, i as int);
                let och = old_self.children@;
                // Reaching and along-ness agree between the node and its children.
                assert(n_reaches(old_self, s) == c_reaches(och, s)) by {
                    if n_reaches(old_self, s) {
                        let k = choose|k: Seq<char>| #[trigger] old_self.get_rel(k) is Some && is_prefix(s, k);
                        lemma_prefix_first(s, k);
                        assert(children_get(och, k) is Some);
                    }
                    if c_reaches(och, s) {
                        let k = choose|k: Seq<char>| #[trigger] children_get(och, k) is Some && is_prefix(s, k);
                        lemma_prefix_first(s, k);
                        assert(old_self.get_rel(k) is Some);
                    }
                }
                if c_reaches(och, s) {
                    let kk = choose|k: Seq<char>| #[trigger] children_get(och, k) is Some && is_prefix(s, k);
                    lemma_prefix_first(s, kk);
                    let j = find_child(och, s[0])->0;
                    assert(r == n_along(old_self, Seq::<char>::empty(), s)) by {
                        if r {
                            assert(och.len() == 1);
                            assert forall|k: Seq<char>| #[trigger] old_self.get_rel(k) is Some && is_prefix(Seq::<char>::empty(), k) implies is_prefix(k, s) by {
                                if k.len() > 0 {
                                    assert(children_get(och, k) is Some);
                                    let x = find_child(och, k[0])->0;
                                    assert(x == 0 && j == 0);
                                    assert(is_prefix(s.take(1), k)) by {
                                        assert(k.take(1) =~= s.take(1));
                                    }
                                } else {
                                    lemma_empty_prefix(s);
                                    assert(k =~= Seq::<char>::empty());
                                }
                            }
                        } else if n_along(old_self, Seq::<char>::empty(), s) {
                            // Every value lies along `s`, so the child is pruned and is
                            // the only child.
                            assert(c_along(och, s.take(1), s)) by {
                                assert forall|k: Seq<char>| #[trigger] children_get(och, k) is Some && is_prefix(s.take(1), k) implies is_prefix(k, s) by {
                                    lemma_prefix_first(s.take(1), k);
                                    assert(old_self.get_rel(k) is Some);
                                    lemma_empty_prefix(k);
                                }
                            }
                            assert(och.len() == 1) by {
                                if och.len() != 1 {
                                    let x = if j == 0 { 1int } else { 0int };
                                    let cx = och[x].0;
                                    och[x].1.lemma_has_key(at.push(cx));
                                    let k1 = choose|k: Seq<char>| #[trigger] och[x].1.get_rel(k) is Some;
                                    lemma_cons_drop(cx, k1);
                                    lemma_child_get(och, x, seq![cx] + k1);
                                    assert(old_self.get_rel(seq![cx] + k1) is Some);
                                    lemma_empty_prefix(seq![cx] + k1);
                                    lemma_prefix_first(seq![cx] + k1, s);
                                }
                            }
                        }
                    }
                    assert forall|k: Seq<char>|
                        #![trigger self.get_rel(k)]
                        (k.len() > 0 || !r) ==> self.get_rel(k) == if n_deleted(old_self, k, s) {
                            None
                        } else {
                            old_self.get_rel(k)
                        } by {
                        if k.len() > 0 {
                            assert(self.get_rel(k) == children_get(self.children@, k));
                            assert(n_deleted(old_self, k, s) == c_deleted(och, k, s)) by {
                                assert(n_along(old_self, k, s) == c_along(och, k, s)) by {
                                    if n_along(old_self, k, s) {
                                        assert forall|k2: Seq<char>| #[trigger] children_get(och, k2) is Some && is_prefix(k, k2) implies is_prefix(k2, s) by {
                                            lemma_prefix_first(k, k2);
                                            assert(old_self.get_rel(k2) is Some);
                                        }
                                    }
                                    if c_along(och, k, s) {
                                        assert forall|k2: Seq<char>| #[trigger] old_self.get_rel(k2) is Some && is_prefix(k, k2) implies is_prefix(k2, s) by {
                                            lemma_prefix_first(k, k2);
                                            assert(children_get(och, k2) is Some);
                                        }
                                    }
                                }
                            }
                        } else {
                            assert(k != s);
                            lemma_empty_prefix(s);
                            assert(k =~= Seq::<char>::empty());
                            assert(self.value == old_self.value);
                        }
                    }
                } else {
                    assert forall|k: Seq<char>|
                        #![trigger self.get_rel(k)]
                        self.get_rel(k) == old_self.get_rel(k) by {
                        if k.len() > 0 {
                            assert(self.get_rel(k) == children_get(self.children@, k));
                        }
                    }
                }
            }
            r
        }
    }
}

impl<T> Trie<T> {
    /// An empty trie.
    fn new() -> (t: Self)
        ensures
            t.wf(),
            t@ == Map::<Seq<char>, T>::empty(),
    {
        let t = Trie { root: Vec::new() };
        assert(t@ =~= Map::<Seq<char>, T>::empty());
        t
    }

    /// Stores `value` under `path`, returning the value it replaces. The
    /// empty path stores nothing.
    pub fn insert(&mut self, path: &str, value: T) -> (r: Option<T>)
        requires
            old(self).wf(),
        ensures
            final(self).wf(),
            path@.len() == 0 ==> r is None && final(self)@ == old(self)@,
            path@.len() > 0 ==> final(self)@ == old(self)@.insert(path@, value),
            path@.len() > 0 ==> r == (if old(self)@.contains_key(path@) {
                Some(old(self)@[path@])
            } else {
                None::<T>
            }),
    {
        let chars = str_chars(path);
        if chars.len() == 0 {
            return None;
        }
        let empty = String::new();
        assert(chars@.take(0) =~= Seq::<char>::empty());
        assert(chars@.skip(0) =~= chars@);
        let ghost old_root = self.root@;
        let r = children_insert(&mut self.root, &empty, &chars, 0, value);
        proof {
            assert(self@ =~= old(self)@.insert(path@, value)) by {
                assert forall|k: Seq<char>| #![auto] self@.contains_key(k) == old(self)@.insert(path@, value).contains_key(k) by {
                    assert(children_get(self.root@, k) == if k == chars@ { Some(value) } else { children_get(old_root, k) });
                }
                assert forall|k: Seq<char>| #![auto] self@.contains_key(k) implies self@[k] == old(self)@.insert(path@, value)[k] by {
                    assert(children_get(self.root@, k) == if k == chars@ { Some(value) } else { children_get(old_root, k) });
                }
            }
        }
        r
    }

    /// Removes every path from the trie.
    pub fn clear(&mut self)
        ensures
            final(self).wf(),
            final(self)@ == Map::<Seq<char>, T>::empty(),
    {
        self.root = Vec::new();
        assert(self@ =~= Map::<Seq<char>, T>::empty());
    }
}

impl<T> Default for Trie<T> {
    fn default() -> (t: Self)
        ensures
            t.wf(),
            t@ == Map::<Seq<char>, T>::empty(),
    {
        Trie::new()
    }
}

impl<T> Trie<T> {
    /// The longest stored path that is a prefix of `path`, with its value.
    pub fn longest_prefix(&self, path: &str) -> (r: Option<NodeRef<'_, T>>)
        requires
            self.wf(),
        ensures
            match r {
                Some(nr) => {
                    &&& longest_stored_prefix(self@, path@, Some(nr.prefix@))
                    &&& *nr.value == self@[nr.prefix@]
                },
                None => longest_stored_prefix(self@, path@, None),
            },
    {
        let chars = str_chars(path);
        assert(chars@.take(0) =~= Seq::<char>::empty());
        assert(chars@.skip(0) =~= chars@);
        let r = children_longest(&self.root, &chars, 0, None);
        proof {
            let p = chars@;
            lemma_best_children(self.root@, p);
            assert forall|k: Seq<char>| #[trigger] self@.contains_key(k) && is_prefix(k, p) implies k == p.take(k.len() as int) && children_get(self.root@, p.take(k.len() as int)) is Some by {}
            match best_children(self.root@, p) {
                Some(m) => {
                    assert(p.take(0 + m as int) == p.take(m as int));
                    assert(self@.contains_key(p.take(m as int)));
                },
                None => {},
            }
        }
        r
    }
}

impl<T> Trie<T> {
    /// Removes the value stored under `path`. Nodes left without children are
    /// pruned on the way back up, together with any value they hold (see
    /// `removed_by`). Returns whether the top-level node of `path` was pruned.
    #[verifier::rlimit(30)]
    pub fn remove(&mut self, path: &str) -> (r: bool)
        requires
            old(self).wf(),
        ensures
            final(self).wf(),
            path@.len() == 0 || !reaches(old(self)@, path@) ==> !r && final(self)@ == old(self)@,
            path@.len() > 0 && reaches(old(self)@, path@) ==> {
                &&& r == along(old(self)@, path@.take(1), path@)
                &&& removal(old(self)@, final(self)@, path@)
            },
    {
        let chars = str_chars(path);
        if chars.len() == 0 {
            return false;
        }
        assert(chars@.take(0) =~= Seq::<char>::empty());
        assert(chars@.skip(0) =~= chars@);
        let ghost old_root = self.root@;
        let r = children_remove(&mut self.root, &chars, 0);
        proof {
            let p = chars@;
            assert(reaches(old(self)@, p) == c_reaches(old_root, p)) by {
                if reaches(old(self)@, p) {
                    let k = choose|k: Seq<char>| #[trigger] old(self)@.contains_key(k) && is_prefix(p, k);
                    assert(children_get(old_root, k) is Some);
                }
                if c_reaches(old_root, p) {
                    let k = choose|k: Seq<char>| #[trigger] children_get(old_root, k) is Some && is_prefix(p, k);
                    assert(old(self)@.contains_key(k));
                }
            }
            assert forall|q: Seq<char>| along(old(self)@, q, p) == c_along(old_root, q, p) by {
                if along(old(self)@, q, p) {
                    assert forall|k: Seq<char>| #[trigger] children_get(old_root, k) is Some && is_prefix(q, k) implies is_prefix(k, p) by {
                        assert(old(self)@.contains_key(k));
                    }
                }
                if c_along(old_root, q, p) {
                    assert forall|k: Seq<char>| #[trigger] old(self)@.contains_key(k) && is_prefix(q, k) implies is_prefix(k, p) by {
                        assert(children_get(old_root, k) is Some);
                    }
                }
            }
            if !c_reaches(old_root, p) {
                assert(self@ =~= old(self)@);
            } else {
                assert forall|k: Seq<char>| #![trigger self@.contains_key(k)] self@.contains_key(k) == (old(self)@.contains_key(k) && !removed_by(old(self)@, k, p)) by {
                    assert(children_get(self.root@, k) == if c_deleted(old_root, k, p) { None } else { children_get(old_root, k) });
                }
                assert forall|k: Seq<char>| #![trigger self@.contains_key(k)] self@.contains_key(k) implies self@[k] == old(self)@[k] by {
                    assert(children_get(self.root@, k) == if c_deleted(old_root, k, p) { None } else { children_get(old_root, k) });
                }
            }
        }
        r
    }
}

/// A collected entry: a full path, with the reference to the stored value.
spec fn entry_at<'a, T>(e: (Vec<char>, NodeRef<'a, T>), n: Node<T>, key: Seq<char>) -> bool {
    &&& e.0@.len() > key.len()
    &&& e.0@.take(key.len() as int) == key
    &&& n.get_rel(e.0@.skip(key.len() as int)) == Some(*e.1.value)
    &&& e.1.prefix@ == e.0@
}

/// The entries of `es` from position `lo` on have distinct paths.
spec fn distinct_from<'a, T>(es: Seq<(Vec<char>, NodeRef<'a, T>)>, lo: int) -> bool {
    forall|x: int, y: int| lo <= x < es.len() && lo <= y < es.len() && x != y ==> es[x].0@ != es[y].0@
}

spec fn collect_step_pre<'a, T>(
    n: Node<T>,
    key: Seq<char>,
    x: int,
    start: int,
    old_out: Seq<(Vec<char>, NodeRef<'a, T>)>,
    before: Seq<(Vec<char>, NodeRef<'a, T>)>,
    mid: Seq<(Vec<char>, NodeRef<'a, T>)>,
    after: Seq<(Vec<char>, NodeRef<'a, T>)>,
) -> bool {
    &&& 0 <= x < n.children@.len()
    &&& children_inv(n.children@, key)
    &&& n.prefix@ == key
    &&& before.len() >= start
    &&& before.take(start) == old_out
    &&& start == old_out.len()
    &&& distinct_from(before, start)
    &&& forall|y: int| start <= y < before.len() ==> {
                &&& entry_at(#[trigger] before[y], n, key)
                &&& exists|z: int| 0 <= z < x && before[y].0@[key.len() as int] == n.children@[z].0
        }
    &&& forall|rel: Seq<char>|
                rel.len() >= 1 && #[trigger] n.get_rel(rel) is Some && (exists|z: int| 0 <= z < x && rel[0] == n.children@[z].0) ==> exists|y: int|
                    start <= y < before.len() && #[trigger] before[y].0@ == key + rel
    &&& mid.len() >= before.len()
    &&& mid.take(before.len() as int) == before
    &&& distinct_from(mid, before.len() as int)
    &&& forall|y: int|
                before.len() <= y < mid.len() ==> entry_at(#[trigger] mid[y], n.children@[x].1, key.push(n.children@[x].0))
    &&& forall|rel: Seq<char>|
                rel.len() >= 1 && #[trigger] n.children@[x].1.get_rel(rel) is Some ==> exists|y: int|
                    before.len() <= y < mid.len() && #[trigger] mid[y].0@ == key.push(n.children@[x].0) + rel
    &&& n.children@[x].1.value is None ==> after == mid
    &&& n.children@[x].1.value is Some ==> {
                &&& after.len() == mid.len() + 1
                &&& after.take(mid.len() as int) == mid
                &&& after[mid.len() as int].0@ == key.push(n.children@[x].0)
                &&& after[mid.len() as int].1.prefix@ == key.push(n.children@[x].0)
                &&& *after[mid.len() as int].1.value == n.children@[x].1.value->0
        }
}

proof fn lemma_collect_new<'a, T>(
    n: Node<T>,
    key: Seq<char>,
    x: int,
    start: int,
    old_out: Seq<(Vec<char>, NodeRef<'a, T>)>,
    before: Seq<(Vec<char>, NodeRef<'a, T>)>,
    mid: Seq<(Vec<char>, NodeRef<'a, T>)>,
    after: Seq<(Vec<char>, NodeRef<'a, T>)>,
)
    requires
        collect_step_pre(n, key, x, start, old_out, before, mid, after),
    ensures
        forall|y: int| 0 <= y < mid.len() ==> #[trigger] after[y] == mid[y],
        forall|y: int| 0 <= y < before.len() ==> #[trigger] mid[y] == before[y],
        forall|y: int| before.len() <= y < after.len() ==> {
            &&& after[y].0@.len() > key.len() + 1 || after[y].0@ == key.push(n.children@[x].0)
            &&& after[y].0@.take(key.len() + 1int) == key.push(n.children@[x].0)
            &&& entry_at(#[trigger] after[y], n, key)
        },
{
    let c = n.children@[x].0;
    let child = n.children@[x].1;
    let out = after;
    let kl = key.len() as int;
    lemma_find_child(n.children@, x);
    assert forall|y: int| 0 <= y < mid.len() implies #[trigger] out[y] == mid[y] by {
        if child.value is Some {
            assert(out[y] == out.take(mid.len() as int)[y]);
        }
    }
    assert forall|y: int| 0 <= y < before.len() implies #[trigger] mid[y] == before[y] by {
        assert(mid[y] == mid.take(before.len() as int)[y]);
    }
    assert forall|y: int| before.len() <= y < out.len() implies {
        &&& out[y].0@.len() > kl + 1 || out[y].0@ == key.push(c)
        &&& out[y].0@.take(kl + 1) == key.push(c)
        &&& entry_at(#[trigger] out[y], n, key)
    } by {
        if y < mid.len() {
            assert(out[y] == mid[y]);
            let e = mid[y];
            assert(entry_at(e, child, key.push(c)));
            let rel = e.0@.skip(kl + 1);
            assert(e.0@.take(kl) =~= key) by {
                assert(e.0@.take(kl) =~= e.0@.take(kl + 1).take(kl));
            }
            assert(e.0@.skip(kl) =~= seq![c] + rel) by {
                assert(e.0@[kl] == e.0@.take(kl + 1)[kl]);
            }
            lemma_cons_drop(c, rel);
            lemma_child_get(n.children@, x, seq![c] + rel);
        } else {
            let e = out[y];
            assert(e.0@ == key.push(c));
            assert(e.0@.take(kl) =~= key);
            assert(e.0@.skip(kl) =~= seq![c]);
            assert(e.0@.take(kl + 1) =~= key.push(c));
            lemma_cons_drop(c, Seq::<char>::empty());
            lemma_child_get(n.children@, x, seq![c]);
            assert(seq![c].drop_first() =~= Seq::<char>::empty());
        }
    }
}

proof fn lemma_collect_distinct<'a, T>(
    children: Seq<(char, Node<T>)>,
    key: Seq<char>,
    x: int,
    start: int,
    before: Seq<(Vec<char>, NodeRef<'a, T>)>,
    mid: Seq<(Vec<char>, NodeRef<'a, T>)>,
    after: Seq<(Vec<char>, NodeRef<'a, T>)>,
)
    requires
        0 <= x < children.len(),
        distinct_chars(children),
        0 <= start <= before.len() <= mid.len(),
        mid.len() <= after.len() <= mid.len() + 1,
        distinct_from(before, start),
        distinct_from(mid, before.len() as int),
        forall|y: int| start <= y < before.len() ==> {
            &&& (#[trigger] before[y]).0@.len() > key.len()
            &&& exists|z: int| 0 <= z < x && before[y].0@[key.len() as int] == children[z].0
        },
        forall|y: int| 0 <= y < mid.len() && y < after.len() ==> #[trigger] after[y] == mid[y],
        forall|y: int| 0 <= y < before.len() ==> #[trigger] mid[y] == before[y],
        forall|y: int| before.len() <= y < after.len() ==> (#[trigger] after[y]).0@.take(key.len() + 1int) == key.push(children[x].0),
        forall|y: int| before.len() <= y < mid.len() ==> (#[trigger] mid[y]).0@.len() > key.len() + 1,
        after.len() == mid.len() + 1 ==> after[mid.len() as int].0@.len() == key.len() + 1,
    ensures
        distinct_from(after, start),
{
    let c = children[x].0;
    let kl = key.len() as int;
    assert forall|a: int, b: int| start <= a < after.len() && start <= b < after.len() && a != b implies after[a].0@ != after[b].0@ by {
        if a < before.len() && b < before.len() {
            assert(after[a] == mid[a] && mid[a] == before[a]);
            assert(after[b] == mid[b] && mid[b] == before[b]);
        } else if a >= before.len() && b >= before.len() {
            if a < mid.len() && b < mid.len() {
                assert(after[a] == mid[a] && after[b] == mid[b]);
            } else if a < mid.len() {
                assert(after[a] == mid[a]);
                assert(mid[a].0@.len() > kl + 1);
            } else {
                assert(after[b] == mid[b]);
                assert(mid[b].0@.len() > kl + 1);
            }
        } else {
            let (o, w) = if a < before.len() { (a, b) } else { (b, a) };
            assert(after[o] == mid[o] && mid[o] == before[o]);
            let z = choose|z: int| 0 <= z < x && before[o].0@[kl] == children[z].0;
            assert(after[w].0@.take(kl + 1) == key.push(c));
            assert(after[w].0@[kl] == after[w].0@.take(kl + 1)[kl]);
            assert(children[z].0 != children[x].0);
        }
    }
}

proof fn lemma_collect_cover<'a, T>(
    n: Node<T>,
    key: Seq<char>,
    x: int,
    start: int,
    old_out: Seq<(Vec<char>, NodeRef<'a, T>)>,
    before: Seq<(Vec<char>, NodeRef<'a, T>)>,
    mid: Seq<(Vec<char>, NodeRef<'a, T>)>,
    after: Seq<(Vec<char>, NodeRef<'a, T>)>,
)
    requires
        collect_step_pre(n, key, x, start, old_out, before, mid, after),
        forall|y: int| 0 <= y < mid.len() ==> #[trigger] after[y] == mid[y],
        forall|y: int| 0 <= y < before.len() ==> #[trigger] mid[y] == before[y],
    ensures
        forall|rel: Seq<char>|
            rel.len() >= 1 && #[trigger] n.get_rel(rel) is Some && (exists|z: int| 0 <= z < x + 1 && rel[0] == n.children@[z].0) ==> exists|y: int|
                start <= y < after.len() && #[trigger] after[y].0@ == key + rel,
{
    let c = n.children@[x].0;
    let child = n.children@[x].1;
    let out = after;
    assert forall|rel: Seq<char>|
        rel.len() >= 1 && #[trigger] n.get_rel(rel) is Some && (exists|z: int| 0 <= z < x + 1 && rel[0] == n.children@[z].0) implies exists|y: int|
            start <= y < out.len() && #[trigger] out[y].0@ == key + rel by {
        let z = choose|z: int| 0 <= z < x + 1 && rel[0] == n.children@[z].0;
        if z < x {
            let y = choose|y: int| start <= y < before.len() && #[trigger] before[y].0@ == key + rel;
            assert(out[y] == before[y]);
        } else {
            lemma_find_child(n.children@, x);
            lemma_child_get(n.children@, x, rel);
            let r1 = rel.drop_first();
            assert(rel =~= seq![c] + r1);
            if r1.len() == 0 {
                assert(child.value is Some);
                assert(key + rel =~= key.push(c));
                assert(out[mid.len() as int].0@ == key.push(c));
            } else {
                assert(child.get_rel(r1) is Some);
                let y = choose|y: int| before.len() <= y < mid.len() && #[trigger] mid[y].0@ == key.push(c) + r1;
                assert(out[y] == mid[y]);
                assert(key.push(c) + r1 =~= key + rel);
            }
        }
    }
}

#[verifier::rlimit(30)]
proof fn lemma_collect_step<'a, T>(
    n: Node<T>,
    key: Seq<char>,
    x: int,
    start: int,
    old_out: Seq<(Vec<char>, NodeRef<'a, T>)>,
    before: Seq<(Vec<char>, NodeRef<'a, T>)>,
    mid: Seq<(Vec<char>, NodeRef<'a, T>)>,
    after: Seq<(Vec<char>, NodeRef<'a, T>)>,
)
    requires
        0 <= x < n.children@.len(),
        children_inv(n.children@, key),
        n.prefix@ == key,
        before.len() >= start,
        before.take(start) == old_out,
        start == old_out.len(),
        distinct_from(before, start),
        forall|y: int| start <= y < before.len() ==> {
            &&& entry_at(#[trigger] before[y], n, key)
            &&& exists|z: int| 0 <= z < x && before[y].0@[key.len() as int] == n.children@[z].0
        },
        forall|rel: Seq<char>|
            rel.len() >= 1 && #[trigger] n.get_rel(rel) is Some && (exists|z: int| 0 <= z < x && rel[0] == n.children@[z].0) ==> exists|y: int|
                start <= y < before.len() && #[trigger] before[y].0@ == key + rel,
        mid.len() >= before.len(),
        mid.take(before.len() as int) == before,
        distinct_from(mid, before.len() as int),
        forall|y: int|
            before.len() <= y < mid.len() ==> entry_at(#[trigger] mid[y], n.children@[x].1, key.push(n.children@[x].0)),
        forall|rel: Seq<char>|
            rel.len() >= 1 && #[trigger] n.children@[x].1.get_rel(rel) is Some ==> exists|y: int|
                before.len() <= y < mid.len() && #[trigger] mid[y].0@ == key.push(n.children@[x].0) + rel,
        n.children@[x].1.value is None ==> after == mid,
        n.children@[x].1.value is Some ==> {
            &&& after.len() == mid.len() + 1
            &&& after.take(mid.len() as int) == mid
            &&& after[mid.len() as int].0@ == key.push(n.children@[x].0)
            &&& after[mid.len() as int].1.prefix@ == key.push(n.children@[x].0)
            &&& *after[mid.len() as int].1.value == n.children@[x].1.value->0
        },
    ensures
        after.len() >= start,
        after.take(start) == old_out,
        distinct_from(after, start),
        forall|y: int| start <= y < after.len() ==> {
            &&& entry_at(#[trigger] after[y], n, key)
            &&& exists|z: int| 0 <= z < x + 1 && after[y].0@[key.len() as int] == n.children@[z].0
        },
        forall|rel: Seq<char>|
            rel.len() >= 1 && #[trigger] n.get_rel(rel) is Some && (exists|z: int| 0 <= z < x + 1 && rel[0] == n.children@[z].0) ==> exists|y: int|
                start <= y < after.len() && #[trigger] after[y].0@ == key + rel,
{
    assert(collect_step_pre(n, key, x, start, old_out, before, mid, after));
    lemma_collect_new(n, key, x, start, old_out, before, mid, after);
    lemma_collect_distinct(n.children@, key, x, start, before, mid, after);
    lemma_collect_cover(n, key, x, start, old_out, before, mid, after);
    let c = n.children@[x].0;
    let kl = key.len() as int;
    assert forall|y: int| start <= y < after.len() implies {
        &&& entry_at(#[trigger] after[y], n, key)
        &&& exists|z: int| 0 <= z < x + 1 && after[y].0@[key.len() as int] == n.children@[z].0
    } by {
        if y < before.len() {
            assert(after[y] == mid[y]);
            assert(mid[y] == before[y]);
        } else {
            assert(after[y].0@.take(kl + 1) == key.push(c));
            assert(after[y].0@[kl] == after[y].0@.take(kl + 1)[kl]);
        }
    }
    assert(after.take(start) =~= old_out) by {
        assert forall|y: int| 0 <= y < start implies after.take(start)[y] == old_out[y] by {
            assert(after[y] == mid[y]);
            assert(mid[y] == before[y]);
            assert(before[y] == before.take(start)[y]);
        }
    }
}

impl<T> Node<T> {
    /// Appends every value stored strictly below this node (found at `key`).
    fn mounts<'a>(&'a self, key: &Vec<char>, out: &mut Vec<(Vec<char>, NodeRef<'a, T>)>)
        requires
            self.inv(key@),
        ensures
            final(out)@.len() >= old(out)@.len(),
            final(out)@.take(old(out)@.len() as int) == old(out)@,
            distinct_from(final(out)@, old(out)@.len() as int),
            forall|x: int|
                old(out)@.len() <= x < final(out)@.len() ==> entry_at(#[trigger] final(out)@[x], *self, key@),
            forall|rel: Seq<char>|
                rel.len() >= 1 && #[trigger] self.get_rel(rel) is Some ==> exists|x: int|
                    old(out)@.len() <= x < final(out)@.len() && #[trigger] final(out)@[x].0@ == key@ + rel,
        decreases self,
    {
        proof {
            lemma_inv_children(*self, key@);
        }
        let ghost start = out@.len();
        let mut x: usize = 0;
        while x < self.children.len()
            invariant
                x <= self.children@.len(),
                children_inv(self.children@, key@),
                self.prefix@ == key@,
                out@.len() >= start,
                out@.take(start as int) == old(out)@,
                start == old(out)@.len(),
                distinct_from(out@, start as int),
                forall|y: int| start <= y < out@.len() ==> {
                    &&& entry_at(#[trigger] out@[y], *self, key@)
                    &&& exists|z: int| 0 <= z < x && out@[y].0@[key@.len() as int] == self.children@[z].0
                },
                forall|rel: Seq<char>|
                    rel.len() >= 1 && #[trigger] self.get_rel(rel) is Some && (exists|z: int| 0 <= z < x && rel[0] == self.children@[z].0) ==> exists|y: int|
                        start <= y < out@.len() && #[trigger] out@[y].0@ == key@ + rel,
            decreases self.children@.len() - x,
        {
            let c = self.children[x].0;
            let child = &self.children[x].1;
            let mut child_key = key.clone();
            assert(child_key@ =~= key@);
            child_key.push(c);
            assert(decreases_to!(self => self.children@[x as int].1));
            let ghost before = out@;
            proof {
                lemma_find_child(self.children@, x as int);
                assert(child.inv(child_key@));
            }
            child.mounts(&child_key, out);
            let ghost mid = out@;
            if let Some(v) = child.value.as_ref() {
                let nr = NodeRef { prefix: child.prefix.as_str(), value: v };
                proof {
                    lemma_inv_children(*child, child_key@);
                }
                out.push((child_key, nr));
                assert(out@.take(mid.len() as int) =~= mid);
            }
            proof {
                lemma_collect_step(*self, key@, x as int, start as int, old(out)@, before, mid, out@);
            }
            x = x + 1;
        }
        proof {
            assert forall|rel: Seq<char>|
                rel.len() >= 1 && #[trigger] self.get_rel(rel) is Some implies exists|x: int|
                    old(out)@.len() <= x < out@.len() && #[trigger] out@[x].0@ == key@ + rel by {
                let z = find_child(self.children@, rel[0])->0;
                assert(exists|z: int| 0 <= z < self.children@.len() && rel[0] == self.children@[z].0);
            }
        }
    }
}

/// A collected entry of the whole trie.
spec fn root_entry<'a, T>(e: (Vec<char>, NodeRef<'a, T>), root: Seq<(char, Node<T>)>) -> bool {
    &&& e.0@.len() >= 2
    &&& children_get(root, e.0@) == Some(*e.1.value)
    &&& e.1.prefix@ == e.0@
}

proof fn lemma_root_step<'a, T>(
    root: Seq<(char, Node<T>)>,
    x: int,
    before: Seq<(Vec<char>, NodeRef<'a, T>)>,
    after: Seq<(Vec<char>, NodeRef<'a, T>)>,
)
    requires
        0 <= x < root.len(),
        children_inv(root, Seq::empty()),
        distinct_from(before, 0),
        forall|y: int| 0 <= y < before.len() ==> {
            &&& root_entry(#[trigger] before[y], root)
            &&& exists|z: int| 0 <= z < x && before[y].0@[0] == root[z].0
        },
        forall|k: Seq<char>|
            k.len() >= 2 && #[trigger] children_get(root, k) is Some && (exists|z: int| 0 <= z < x && k[0] == root[z].0) ==> exists|y: int|
                0 <= y < before.len() && #[trigger] before[y].0@ == k,
        after.len() >= before.len(),
        after.take(before.len() as int) == before,
        distinct_from(after, before.len() as int),
        forall|y: int|
            before.len() <= y < after.len() ==> entry_at(#[trigger] after[y], root[x].1, seq![root[x].0]),
        forall|rel: Seq<char>|
            rel.len() >= 1 && #[trigger] root[x].1.get_rel(rel) is Some ==> exists|y: int|
                before.len() <= y < after.len() && #[trigger] after[y].0@ == seq![root[x].0] + rel,
    ensures
        distinct_from(after, 0),
        forall|y: int| 0 <= y < after.len() ==> {
            &&& root_entry(#[trigger] after[y], root)
            &&& exists|z: int| 0 <= z < x + 1 && after[y].0@[0] == root[z].0
        },
        forall|k: Seq<char>|
            k.len() >= 2 && #[trigger] children_get(root, k) is Some && (exists|z: int| 0 <= z < x + 1 && k[0] == root[z].0) ==> exists|y: int|
                0 <= y < after.len() && #[trigger] after[y].0@ == k,
{
    let c = root[x].0;
    let node = root[x].1;
    lemma_find_child(root, x);
    assert forall|y: int| 0 <= y < before.len() implies #[trigger] after[y] == before[y] by {
        assert(after[y] == after.take(before.len() as int)[y]);
    }
    assert forall|y: int| before.len() <= y < after.len() implies {
        &&& root_entry(#[trigger] after[y], root)
        &&& after[y].0@[0] == c
    } by {
        let e = after[y];
        assert(entry_at(e, node, seq![c]));
        assert(e.0@[0] == e.0@.take(1)[0]);
        assert(e.0@.skip(1) =~= e.0@.drop_first());
        lemma_child_get(root, x, e.0@);
    }
    assert forall|y: int| 0 <= y < after.len() implies {
        &&& root_entry(#[trigger] after[y], root)
        &&& exists|z: int| 0 <= z < x + 1 && after[y].0@[0] == root[z].0
    } by {
        if y < before.len() {
            assert(after[y] == before[y]);
        } else {
            assert(after[y].0@[0] == root[x].0);
        }
    }
    assert forall|a: int, b: int| 0 <= a < after.len() && 0 <= b < after.len() && a != b implies after[a].0@ != after[b].0@ by {
        if a < before.len() && b < before.len() {
            assert(after[a] == before[a] && after[b] == before[b]);
        } else if a < before.len() || b < before.len() {
            let (o, w) = if a < before.len() { (a, b) } else { (b, a) };
            assert(after[o] == before[o]);
            let z = choose|z: int| 0 <= z < x && before[o].0@[0] == root[z].0;
            assert(after[w].0@[0] == c);
            assert(root[z].0 != root[x].0);
        }
    }
    assert forall|k: Seq<char>|
        k.len() >= 2 && #[trigger] children_get(root, k) is Some && (exists|z: int| 0 <= z < x + 1 && k[0] == root[z].0) implies exists|y: int|
            0 <= y < after.len() && #[trigger] after[y].0@ == k by {
        let z = choose|z: int| 0 <= z < x + 1 && k[0] == root[z].0;
        if z < x {
            let y = choose|y: int| 0 <= y < before.len() && #[trigger] before[y].0@ == k;
            assert(after[y] == before[y]);
        } else {
            lemma_child_get(root, x, k);
            let r1 = k.drop_first();
            assert(k =~= seq![c] + r1);
            assert(node.get_rel(r1) is Some);
        }
    }
}

impl<T> Trie<T> {
    /// Every stored path of at least two characters with its value, sorted by
    /// path. (Paths of a single character are held by top-level nodes, whose
    /// own values are not listed.)
    #[verifier::rlimit(50)]
    #[verifier::spinoff_prover]
    pub fn mounts(&self) -> (r: Vec<NodeRef<'_, T>>)
        requires
            self.wf(),
        ensures
            forall|j: int|
                0 <= j < r@.len() ==> {
                    &&& (#[trigger] r@[j]).prefix@.len() >= 2
                    &&& self@.contains_key(r@[j].prefix@)
                    &&& *r@[j].value == self@[r@[j].prefix@]
                },
            forall|k: Seq<char>|
                #![trigger self@.contains_key(k)]
                self@.contains_key(k) && k.len() >= 2 ==> exists|j: int|
                    0 <= j < r@.len() && (#[trigger] r@[j]).prefix@ == k,
            forall|a: int, b: int|
                0 <= a < b < r@.len() ==> lex_lt((#[trigger] r@[a]).prefix@, (#[trigger] r@[b]).prefix@),
    {
        let mut entries: Vec<(Vec<char>, NodeRef<'_, T>)> = Vec::new();
        let mut x: usize = 0;
        while x < self.root.len()
            invariant
                x <= self.root@.len(),
                children_inv(self.root@, Seq::empty()),
                distinct_from(entries@, 0),
                forall|y: int| 0 <= y < entries@.len() ==> {
                    &&& root_entry(#[trigger] entries@[y], self.root@)
                    &&& exists|z: int| 0 <= z < x && entries@[y].0@[0] == self.root@[z].0
                },
                forall|k: Seq<char>|
                    k.len() >= 2 && #[trigger] children_get(self.root@, k) is Some && (exists|z: int| 0 <= z < x && k[0] == self.root@[z].0) ==> exists|y: int|
                        0 <= y < entries@.len() && #[trigger] entries@[y].0@ == k,
            decreases self.root@.len() - x,
        {
            let c = self.root[x].0;
            let mut key: Vec<char> = Vec::new();
            key.push(c);
            assert(key@ =~= seq![c]);
            assert(seq![c] =~= Seq::<char>::empty().push(c));
            let ghost before = entries@;
            self.root[x].1.mounts(&key, &mut entries);
            proof {
                assert(entries@.take(before.len() as int) =~= before);
                lemma_root_step(self.root@, x as int, before, entries@);
            }
            x = x + 1;
        }
        proof {
            assert forall|k: Seq<char>|
                k.len() >= 2 && #[trigger] children_get(self.root@, k) is Some implies exists|y: int|
                    0 <= y < entries@.len() && #[trigger] entries@[y].0@ == k by {
                let z = find_child(self.root@, k[0])->0;
                assert(exists|z: int| 0 <= z < self.root@.len() && k[0] == self.root@[z].0);
            }
        }
        // Insertion sort, kept in descending order so that popping yields ascending order.
        let ghost orig = entries@;
        let mut sorted: Vec<(Vec<char>, NodeRef<'_, T>)> = Vec::new();
        while entries.len() > 0
            invariant
                entries@ == orig.take(entries@.len() as int),
                entries@.len() <= orig.len(),
                distinct_from(orig, 0),
                forall|y: int| 0 <= y < sorted@.len() ==> exists|z: int|
                    entries@.len() <= z < orig.len() && #[trigger] sorted@[y] == orig[z],
                forall|z: int| entries@.len() <= z < orig.len() ==> exists|y: int|
                    0 <= y < sorted@.len() && sorted@[y] == #[trigger] orig[z],
                forall|a: int, b: int|
                    0 <= a < b < sorted@.len() ==> lex_lt((#[trigger] sorted@[b]).0@, (#[trigger] sorted@[a]).0@),
            decreases entries@.len(),
        {
            let ghost n = entries@.len() - 1;
            let e = entries.pop().unwrap();
            assert(e == orig[n]);
            let mut i: usize = 0;
            while i < sorted.len() && lex_less(&e.0, &sorted[i].0)
                invariant
                    i <= sorted@.len(),
                    forall|y: int| 0 <= y < i ==> lex_lt(e.0@, (#[trigger] sorted@[y]).0@),
                decreases sorted@.len() - i,
            {
                i = i + 1;
            }
            proof {
                if i < sorted@.len() {
                    let z = choose|z: int| n + 1 <= z < orig.len() && #[trigger] sorted@[i as int] == orig[z];
                    assert(orig[z].0@ != orig[n].0@);
                    lemma_lex_total(e.0@, sorted@[i as int].0@);
                    assert forall|y: int| i <= y < sorted@.len() implies lex_lt((#[trigger] sorted@[y]).0@, e.0@) by {
                        if y > i {
                            lemma_lex_trans(sorted@[y].0@, sorted@[i as int].0@, e.0@);
                        }
                    }
                }
            }
            let ghost old_sorted = sorted@;
            sorted.insert(i, e);
            proof {
                assert forall|y: int| 0 <= y < sorted@.len() implies #[trigger] sorted@[y] == if y < i {
                    old_sorted[y]
                } else if y == i {
                    e
                } else {
                    old_sorted[y - 1]
                } by {}
                assert forall|a: int, b: int|
                    0 <= a < b < sorted@.len() implies lex_lt((#[trigger] sorted@[b]).0@, (#[trigger] sorted@[a]).0@) by {
                    if a < i && b > i {
                        lemma_lex_trans(old_sorted[b - 1].0@, e.0@, old_sorted[a].0@);
                    }
                }
                assert forall|y: int| 0 <= y < sorted@.len() implies exists|z: int|
                    n <= z < orig.len() && #[trigger] sorted@[y] == orig[z] by {
                    if y < i {
                        let z = choose|z: int| n + 1 <= z < orig.len() && #[trigger] old_sorted[y] == orig[z];
                    } else if y > i {
                        let z = choose|z: int| n + 1 <= z < orig.len() && #[trigger] old_sorted[y - 1] == orig[z];
                    }
                }
                assert forall|z: int| n <= z < orig.len() implies exists|y: int|
                    0 <= y < sorted@.len() && sorted@[y] == #[trigger] orig[z] by {
                    if z > n {
                        let y = choose|y: int| 0 <= y < old_sorted.len() && old_sorted[y] == #[trigger] orig[z];
                        if y < i {
                            assert(sorted@[y] == orig[z]);
                        } else {
                            assert(sorted@[y + 1] == orig[z]);
                        }
                    } else {
                        assert(sorted@[i as int] == orig[z]);
                    }
                }
                assert(entries@ =~= orig.take(n));
            }
        }
        let ghost full = sorted@;
        let mut r: Vec<NodeRef<'_, T>> = Vec::new();
        while sorted.len() > 0
            invariant
                sorted@ == full.take(sorted@.len() as int),
                sorted@.len() <= full.len(),
                r@.len() + sorted@.len() == full.len(),
                forall|j: int| 0 <= j < r@.len() ==> #[trigger] r@[j] == full[full.len() - 1 - j].1,
            decreases sorted@.len(),
        {
            let e = sorted.pop().unwrap();
            r.push(e.1);
            assert(sorted@ =~= full.take(sorted@.len() as int));
        }
        proof {
            assert forall|j: int| 0 <= j < r@.len() implies {
                &&& (#[trigger] r@[j]).prefix@.len() >= 2
                &&& self@.contains_key(r@[j].prefix@)
                &&& *r@[j].value == self@[r@[j].prefix@]
            } by {
                let z = choose|z: int| 0 <= z < orig.len() && #[trigger] full[full.len() - 1 - j] == orig[z];
                assert(root_entry(orig[z], self.root@));
            }
            assert forall|k: Seq<char>|
                #![trigger self@.contains_key(k)]
                self@.contains_key(k) && k.len() >= 2 implies exists|j: int|
                    0 <= j < r@.len() && (#[trigger] r@[j]).prefix@ == k by {
                let z = choose|z: int| 0 <= z < orig.len() && #[trigger] orig[z].0@ == k;
                let y = choose|y: int| 0 <= y < full.len() && full[y] == #[trigger] orig[z];
                assert(root_entry(orig[z], self.root@));
                assert(r@[full.len() - 1 - y] == full[y].1);
            }
            assert forall|a: int, b: int|
                0 <= a < b < r@.len() implies lex_lt((#[trigger] r@[a]).prefix@, (#[trigger] r@[b]).prefix@) by {
                let ya = full.len() - 1 - a;
                let yb = full.len() - 1 - b;
                let za = choose|z: int| 0 <= z < orig.len() && #[trigger] full[ya] == orig[z];
                let zb = choose|z: int| 0 <= z < orig.len() && #[trigger] full[yb] == orig[z];
                assert(root_entry(orig[za], self.root@));
                assert(root_entry(orig[zb], self.root@));
                assert(lex_lt(full[ya].0@, full[yb].0@));
            }
        }
        r
    }
}

/// The node reached from `children` by the non-empty relative path `k`.
spec fn node_at<T>(children: Seq<(char, Node<T>)>, k: Seq<char>) -> Option<Node<T>>
    decreases k.len(),
{
    if k.len() == 0 {
        None
    } else {
        match find_child(children, k[0]) {
            Some(i) => if k.len() == 1 {
                Some(children[i].1)
            } else {
                node_at(children[i].1.children@, k.drop_first())
            },
            None => None,
        }
    }
}

impl<T> Trie<T> {
    /// Every node of the trie, by the path that leads to it from the root:
    /// the path the node records, the value it holds and how many children
    /// it has.
    pub closed spec fn nodes(self) -> Map<Seq<char>, (Seq<char>, Option<T>, nat)> {
        Map::new(
            |k: Seq<char>| node_at(self.root@, k) is Some,
            |k: Seq<char>|
                {
                    let n = node_at(self.root@, k)->0;
                    (n.prefix@, n.value, n.children@.len())
                },
        )
    }
}

/// A node reached from well-formed children below `at` records the path
/// `at + k`, holds a value or has children, and holds what is stored at `k`.
proof fn lemma_node_at<T>(ch: Seq<(char, Node<T>)>, at: Seq<char>, k: Seq<char>)
    requires
        children_inv(ch, at),
        node_at(ch, k) is Some,
    ensures
        node_at(ch, k)->0.prefix@ == at + k,
        node_at(ch, k)->0.nonempty(),
        node_at(ch, k)->0.value == children_get(ch, k),
    decreases k.len(),
{
    let i = find_child(ch, k[0])->0;
    assert(ch[i].0 == k[0]);
    let child = ch[i].1;
    assert(child.inv(at.push(k[0])));
    if k.len() == 1 {
        assert(at.push(k[0]) =~= at + k);
        assert(k.drop_first() =~= Seq::<char>::empty());
    } else {
        lemma_inv_children(child, at.push(k[0]));
        lemma_node_at(child.children@, at.push(k[0]), k.drop_first());
        assert(at.push(k[0]) + k.drop_first() =~= at + k);
    }
}

/// A value stored below `ch` at `k` is held by a node reached by `k`.
proof fn lemma_stored_has_node<T>(ch: Seq<(char, Node<T>)>, k: Seq<char>)
    requires
        children_get(ch, k) is Some,
    ensures
        node_at(ch, k) is Some,
    decreases k.len(),
{
    let i = find_child(ch, k[0])->0;
    if k.len() > 1 {
        lemma_stored_has_node(ch[i].1.children@, k.drop_first());
    }
}

/// Every node of a well-formed trie records the exact path that leads to
/// it from the root, a node without children holds a value, and the value
/// a node holds is the one stored under its path. As `insert`, `remove`
/// and `clear` keep the trie well formed, this holds after each of them.
pub proof fn law_nodes_record_their_paths<T>(t: Trie<T>, k: Seq<char>)
    requires
        t.wf(),
        t.nodes().contains_key(k),
    ensures
        t.nodes()[k].0 == k,
        t.nodes()[k].2 == 0 ==> t.nodes()[k].1 is Some,
        t.nodes()[k].1 == (if t@.contains_key(k) {
            Some(t@[k])
        } else {
            None::<T>
        }),
{
    lemma_node_at(t.root@, Seq::empty(), k);
    assert(Seq::<char>::empty() + k =~= k);
}

/// Every path stored in the trie leads to a node.
pub proof fn law_stored_paths_have_nodes<T>(t: Trie<T>, k: Seq<char>)
    requires
        t@.contains_key(k),
    ensures
        t.nodes().contains_key(k),
{
    lemma_stored_has_node(t.root@, k);
}

/// A value inserted at a non-empty path is what the path reads back, and
/// every other path reads as before.
pub proof fn law_read_after_insert<T>(
    before: Map<Seq<char>, T>,
    after: Map<Seq<char>, T>,
    path: Seq<char>,
    value: T,
    other: Seq<char>,
)
    requires
        path.len() > 0,
        after == before.insert(path, value),
    ensures
        after.contains_key(path),
        after[path] == value,
        other != path ==> after.contains_key(other) == before.contains_key(other),
        other != path && before.contains_key(other) ==> after[other] == before[other],
{
}

/// A removed path no longer reads back.
pub proof fn law_removed_path_is_gone<T>(
    before: Map<Seq<char>, T>,
    after: Map<Seq<char>, T>,
    path: Seq<char>,
)
    requires
        removal(before, after, path),
    ensures
        !after.contains_key(path),
{
    assert(removed_by(before, path, path));
}

/// Removing a path keeps every stored path that is not a prefix of it, with
/// its value.
pub proof fn law_removal_keeps_other_paths<T>(
    before: Map<Seq<char>, T>,
    after: Map<Seq<char>, T>,
    path: Seq<char>,
    other: Seq<char>,
)
    requires
        removal(before, after, path),
        before.contains_key(other),
        !is_prefix(other, path),
    ensures
        after.contains_key(other),
        after[other] == before[other],
{
    assert(path.take(path.len() as int) =~= path);
    assert(other != path);
    assert(!removed_by(before, other, path));
    assert(after.contains_key(other));
}

/// The longest stored prefix of a stored path is the path itself.
pub proof fn law_stored_path_is_own_longest_prefix<T>(
    m: Map<Seq<char>, T>,
    path: Seq<char>,
    found: Option<Seq<char>>,
)
    requires
        m.contains_key(path),
        longest_stored_prefix(m, path, found),
    ensures
        found == Some(path),
{
    assert(is_prefix(path, path)) by {
        assert(path.take(path.len() as int) =~= path);
    }
    match found {
        Some(p) => {
            assert(p.len() >= path.len());
            assert(p =~= path);
        },
        None => {},
    }
}

} // verus!
