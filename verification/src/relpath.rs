//! Relative paths inside a compared folder tree, and their order.
//!
//! A relative path is a sequence of normal components (file or directory
//! names, never empty, never `.`), each held as a sequence of characters.
//! Paths are ordered component by component, and components character by
//! character by code point; this is the order in which std orders `Path`s
//! made of normal components, since UTF-8 preserves code-point order.
use vstd::prelude::*;

verus! {

/// Result of a three-way comparison.
#[derive(Debug, Clone, Copy, PartialEq, Eq, Structural)]
pub enum Order {
    Less,
    Equal,
    Greater,
}

// ---------------------------------------------------------------------------
// Order on component names (character sequences)
// ---------------------------------------------------------------------------

/// `a` and `b` agree on the first `k` characters, and position `k` decides
/// that `a` comes first: either `a` ends there and `b` goes on, or the
/// character of `a` there has the smaller code point.
pub open spec fn chars_lt_at(a: Seq<char>, b: Seq<char>, k: int) -> bool {
    &&& 0 <= k <= a.len()
    &&& k <= b.len()
    &&& forall|i: int| 0 <= i < k ==> a[i] == b[i]
    &&& ((k == a.len() && k < b.len()) || (k < a.len() && k < b.len() && (a[k] as int) < (b[k] as int)))
}

/// Lexicographic order on character sequences, by code point.
pub open spec fn chars_lt(a: Seq<char>, b: Seq<char>) -> bool {
    exists|k: int| #[trigger] chars_lt_at(a, b, k)
}

pub proof fn lemma_chars_lt_irreflexive(a: Seq<char>)
    ensures
        !chars_lt(a, a),
{
    assert forall|k: int| !chars_lt_at(a, a, k) by {}
}

pub proof fn lemma_chars_lt_transitive(a: Seq<char>, b: Seq<char>, c: Seq<char>)
    requires
        chars_lt(a, b),
        chars_lt(b, c),
    ensures
        chars_lt(a, c),
{
    let k1 = choose|k: int| chars_lt_at(a, b, k);
    let k2 = choose|k: int| chars_lt_at(b, c, k);
    if k1 < k2 {
        assert(chars_lt_at(a, c, k1));
    } else if k2 < k1 {
        assert(chars_lt_at(a, c, k2));
    } else {
        assert(chars_lt_at(a, c, k1));
    }
}

pub proof fn lemma_chars_lt_asymmetric(a: Seq<char>, b: Seq<char>)
    requires
        chars_lt(a, b),
    ensures
        !chars_lt(b, a),
        a != b,
{
    lemma_chars_lt_irreflexive(a);
    if chars_lt(b, a) {
        lemma_chars_lt_transitive(a, b, a);
    }
}

proof fn lemma_chars_lt_total_from(a: Seq<char>, b: Seq<char>, n: int)
    requires
        0 <= n <= a.len(),
        n <= b.len(),
        forall|i: int| 0 <= i < n ==> a[i] == b[i],
        a != b,
    ensures
        chars_lt(a, b) || chars_lt(b, a),
    decreases a.len() - n,
{
    if n == a.len() {
        if n == b.len() {
            assert(a =~= b);
        } else {
            assert(chars_lt_at(a, b, n));
        }
    } else if n == b.len() {
        assert(chars_lt_at(b, a, n));
    } else if a[n] == b[n] {
        lemma_chars_lt_total_from(a, b, n + 1);
    } else if (a[n] as int) < (b[n] as int) {
        assert(chars_lt_at(a, b, n));
    } else {
        assert(chars_lt_at(b, a, n));
    }
}

pub proof fn lemma_chars_lt_total(a: Seq<char>, b: Seq<char>)
    requires
        a != b,
    ensures
        chars_lt(a, b) || chars_lt(b, a),
{
    lemma_chars_lt_total_from(a, b, 0);
}

// ---------------------------------------------------------------------------
// Order on paths (sequences of components)
// ---------------------------------------------------------------------------

/// `a` and `b` agree on the first `k` components, and position `k` decides
/// that `a` comes first.
pub open spec fn path_lt_at(a: Seq<Seq<char>>, b: Seq<Seq<char>>, k: int) -> bool {
    &&& 0 <= k <= a.len()
    &&& k <= b.len()
    &&& forall|i: int| 0 <= i < k ==> a[i] == b[i]
    &&& ((k == a.len() && k < b.len()) || (k < a.len() && k < b.len() && chars_lt(a[k], b[k])))
}

/// The order of relative paths: lexicographic over components.
pub open spec fn path_lt(a: Seq<Seq<char>>, b: Seq<Seq<char>>) -> bool {
    exists|k: int| #[trigger] path_lt_at(a, b, k)
}

pub proof fn lemma_path_lt_irreflexive(a: Seq<Seq<char>>)
    ensures
        !path_lt(a, a),
{
    assert forall|k: int| !path_lt_at(a, a, k) by {
        if 0 <= k < a.len() {
            lemma_chars_lt_irreflexive(a[k]);
        }
    }
}

pub proof fn lemma_path_lt_transitive(a: Seq<Seq<char>>, b: Seq<Seq<char>>, c: Seq<Seq<char>>)
    requires
        path_lt(a, b),
        path_lt(b, c),
    ensures
        path_lt(a, c),
{
    let k1 = choose|k: int| path_lt_at(a, b, k);
    let k2 = choose|k: int| path_lt_at(b, c, k);
    if k1 < k2 {
        assert(path_lt_at(a, c, k1));
    } else if k2 < k1 {
        assert(path_lt_at(a, c, k2));
    } else {
        if k1 < a.len() {
            lemma_chars_lt_transitive(a[k1], b[k1], c[k1]);
        }
        assert(path_lt_at(a, c, k1));
    }
}

pub proof fn lemma_path_lt_asymmetric(a: Seq<Seq<char>>, b: Seq<Seq<char>>)
    requires
        path_lt(a, b),
    ensures
        !path_lt(b, a),
        a != b,
{
    lemma_path_lt_irreflexive(a);
    if path_lt(b, a) {
        lemma_path_lt_transitive(a, b, a);
    }
}

proof fn lemma_path_lt_total_from(a: Seq<Seq<char>>, b: Seq<Seq<char>>, n: int)
    requires
        0 <= n <= a.len(),
        n <= b.len(),
        forall|i: int| 0 <= i < n ==> a[i] == b[i],
        a != b,
    ensures
        path_lt(a, b) || path_lt(b, a),
    decreases a.len() - n,
{
    if n == a.len() {
        if n == b.len() {
            assert(a =~= b);
        } else {
            assert(path_lt_at(a, b, n));
        }
    } else if n == b.len() {
        assert(path_lt_at(b, a, n));
    } else if a[n] == b[n] {
        lemma_path_lt_total_from(a, b, n + 1);
    } else {
        lemma_chars_lt_total(a[n], b[n]);
        if chars_lt(a[n], b[n]) {
            assert(path_lt_at(a, b, n));
        } else {
            assert(path_lt_at(b, a, n));
        }
    }
}

pub proof fn lemma_path_lt_total(a: Seq<Seq<char>>, b: Seq<Seq<char>>)
    requires
        a != b,
    ensures
        path_lt(a, b) || path_lt(b, a),
{
    lemma_path_lt_total_from(a, b, 0);
}

/// The three-way result that `path_lt` gives for `a` against `b`.
pub open spec fn path_order(a: Seq<Seq<char>>, b: Seq<Seq<char>>) -> Order {
    if path_lt(a, b) {
        Order::Less
    } else if a == b {
        Order::Equal
    } else {
        Order::Greater
    }
}

/// Compares two component names by code point.
pub fn compare_chars(a: &Vec<char>, b: &Vec<char>) -> (o: Order)
    ensures
        (o == Order::Less) <==> chars_lt(a@, b@),
        (o == Order::Equal) <==> a@ == b@,
        (o == Order::Greater) <==> chars_lt(b@, a@),
{
    let mut i: usize = 0;
    while i < a.len() && i < b.len()
        invariant
            i <= a.len(),
            i <= b.len(),
            forall|j: int| 0 <= j < i ==> a@[j] == b@[j],
        decreases a.len() - i,
    {
        let ca = a[i];
        let cb = b[i];
        if ca < cb {
            proof {
                assert(chars_lt_at(a@, b@, i as int));
                lemma_chars_lt_asymmetric(a@, b@);
            }
            return Order::Less;
        } else if cb < ca {
            proof {
                assert(chars_lt_at(b@, a@, i as int));
                lemma_chars_lt_asymmetric(b@, a@);
            }
            return Order::Greater;
        }
        i = i + 1;
    }
    if a.len() < b.len() {
        proof {
            assert(chars_lt_at(a@, b@, i as int));
            lemma_chars_lt_asymmetric(a@, b@);
        }
        Order::Less
    } else if b.len() < a.len() {
        proof {
            assert(chars_lt_at(b@, a@, i as int));
            lemma_chars_lt_asymmetric(b@, a@);
        }
        Order::Greater
    } else {
        proof {
            assert(a@ =~= b@);
            lemma_chars_lt_irreflexive(a@);
        }
        Order::Equal
    }
}

/// A copy of a component name.
pub fn copy_chars(v: &Vec<char>) -> (r: Vec<char>)
    ensures
        r@ == v@,
{
    let mut r: Vec<char> = Vec::new();
    let mut i: usize = 0;
    while i < v.len()
        invariant
            i <= v.len(),
            r@ == v@.take(i as int),
        decreases v.len() - i,
    {
        r.push(v[i]);
        i = i + 1;
        proof {
            assert(r@ =~= v@.take(i as int));
        }
    }
    proof {
        assert(r@ =~= v@);
    }
    r
}

/// A path relative to the root of a compared folder tree.
#[derive(Debug, Clone)]
pub struct RelPath {
    pub components: Vec<Vec<char>>,
}

impl View for RelPath {
    type V = Seq<Seq<char>>;

    open spec fn view(&self) -> Seq<Seq<char>> {
        self.components@.map_values(|c: Vec<char>| c@)
    }
}

/// The parent of a path: all components but the last (the empty path for a
/// path of at most one component).
pub open spec fn parent_of(p: Seq<Seq<char>>) -> Seq<Seq<char>> {
    if p.len() == 0 {
        p
    } else {
        p.drop_last()
    }
}

/// The components joined by `/`.
pub open spec fn join_components(p: Seq<Seq<char>>) -> Seq<char>
    decreases p.len(),
{
    if p.len() == 0 {
        Seq::empty()
    } else if p.len() == 1 {
        p[0]
    } else {
        join_components(p.drop_last()) + seq!['/'] + p.last()
    }
}

/// A component kept by `parse`: not empty and not `.`.
pub open spec fn kept_component(c: Seq<char>) -> bool {
    c.len() > 0 && c != seq!['.']
}

/// Reading `s` up to its end: the components completed so far and the
/// component being read.
pub open spec fn parse_state(s: Seq<char>) -> (Seq<Seq<char>>, Seq<char>)
    decreases s.len(),
{
    if s.len() == 0 {
        (Seq::empty(), Seq::empty())
    } else {
        let (done, cur) = parse_state(s.drop_last());
        if s.last() == '/' {
            (if kept_component(cur) { done.push(cur) } else { done }, Seq::empty())
        } else {
            (done, cur.push(s.last()))
        }
    }
}

/// The components of a `/`-separated path text, with empty and `.`
/// components dropped.
pub open spec fn parse_components(s: Seq<char>) -> Seq<Seq<char>> {
    let (done, cur) = parse_state(s);
    if kept_component(cur) {
        done.push(cur)
    } else {
        done
    }
}

impl RelPath {
    /// The path written as `/`-separated components (`a/b/c.txt`); empty
    /// and `.` components are dropped.
    pub fn parse(s: &str) -> (r: RelPath)
        ensures
            r@ == parse_components(s@),
    {
        let cs = crate::strings::chars_of(s);
        let mut done: Vec<Vec<char>> = Vec::new();
        let mut cur: Vec<char> = Vec::new();
        let mut i: usize = 0;
        while i < cs.len()
            invariant
                i <= cs@.len(),
                cs@ == s@,
                (done@.map_values(|c: Vec<char>| c@), cur@) == parse_state(cs@.take(i as int)),
            decreases cs@.len() - i,
        {
            let ghost before = done@.map_values(|c: Vec<char>| c@);
            proof {
                assert(cs@.take(i + 1).drop_last() =~= cs@.take(i as int));
            }
            if cs[i] == '/' {
                let keep = cur.len() > 0 && !(cur.len() == 1 && cur[0] == '.');
                proof {
                    if cur@.len() == 1 && cur@[0] == '.' {
                        assert(cur@ =~= seq!['.']);
                    }
                }
                let mut next: Vec<char> = Vec::new();
                std::mem::swap(&mut next, &mut cur);
                if keep {
                    done.push(next);
                    proof {
                        assert(done@.map_values(|c: Vec<char>| c@) =~= before.push(next@));
                    }
                }
            } else {
                cur.push(cs[i]);
            }
            i = i + 1;
        }
        proof {
            assert(cs@.take(i as int) =~= cs@);
        }
        let keep = cur.len() > 0 && !(cur.len() == 1 && cur[0] == '.');
        proof {
            if cur@.len() == 1 && cur@[0] == '.' {
                assert(cur@ =~= seq!['.']);
            }
        }
        let ghost before = done@.map_values(|c: Vec<char>| c@);
        if keep {
            done.push(cur);
            proof {
                assert(done@.map_values(|c: Vec<char>| c@) =~= before.push(parse_state(s@).1));
            }
        }
        RelPath { components: done }
    }

    /// The components joined by `/`, as a string.
    pub fn display(&self) -> (r: String)
        ensures
            r@ == join_components(self@),
    {
        let cs = self.display_chars();
        crate::strings::string_of(cs.as_slice())
    }

    /// The empty path (the root itself).
    pub fn empty() -> (r: RelPath)
        ensures
            r@ == Seq::<Seq<char>>::empty(),
    {
        let r = RelPath { components: Vec::new() };
        proof {
            assert(r@ =~= Seq::<Seq<char>>::empty());
        }
        r
    }

    /// A path made of the given components.
    pub fn from_components(components: Vec<Vec<char>>) -> (r: RelPath)
        ensures
            r.components@ == components@,
    {
        RelPath { components }
    }

    pub fn len(&self) -> (n: usize)
        ensures
            n == self@.len(),
    {
        self.components.len()
    }

    /// A copy of this path.
    pub fn duplicate(&self) -> (r: RelPath)
        ensures
            r@ == self@,
    {
        let mut comps: Vec<Vec<char>> = Vec::new();
        let mut i: usize = 0;
        while i < self.components.len()
            invariant
                i <= self.components.len(),
                comps@.len() == i,
                forall|j: int| 0 <= j < i ==> comps@[j]@ == self.components@[j]@,
            decreases self.components.len() - i,
        {
            comps.push(copy_chars(&self.components[i]));
            i = i + 1;
        }
        let r = RelPath { components: comps };
        proof {
            assert(r@ =~= self@);
        }
        r
    }

    /// Compares two paths in path order.
    pub fn compare(&self, other: &RelPath) -> (o: Order)
        ensures
            o == path_order(self@, other@),
            (o == Order::Less) <==> path_lt(self@, other@),
            (o == Order::Equal) <==> self@ == other@,
            (o == Order::Greater) <==> path_lt(other@, self@),
    {
        let a = &self.components;
        let b = &other.components;
        let ghost av = self@;
        let ghost bv = other@;
        let mut i: usize = 0;
        while i < a.len() && i < b.len()
            invariant
                av == self@,
                bv == other@,
                a == &self.components,
                b == &other.components,
                av.len() == a.len(),
                bv.len() == b.len(),
                i <= a.len(),
                i <= b.len(),
                forall|j: int| 0 <= j < i ==> av[j] == bv[j],
            decreases a.len() - i,
        {
            match compare_chars(&a[i], &b[i]) {
                Order::Less => {
                    proof {
                        assert(path_lt_at(av, bv, i as int));
                        lemma_path_lt_asymmetric(av, bv);
                    }
                    return Order::Less;
                },
                Order::Greater => {
                    proof {
                        assert(path_lt_at(bv, av, i as int));
                        lemma_path_lt_asymmetric(bv, av);
                    }
                    return Order::Greater;
                },
                Order::Equal => {},
            }
            i = i + 1;
        }
        if a.len() < b.len() {
            proof {
                assert(path_lt_at(av, bv, i as int));
                lemma_path_lt_asymmetric(av, bv);
            }
            Order::Less
        } else if b.len() < a.len() {
            proof {
                assert(path_lt_at(bv, av, i as int));
                lemma_path_lt_asymmetric(bv, av);
            }
            Order::Greater
        } else {
            proof {
                assert(av =~= bv);
                lemma_path_lt_irreflexive(av);
            }
            Order::Equal
        }
    }

    /// Whether two paths are equal.
    pub fn same_as(&self, other: &RelPath) -> (b: bool)
        ensures
            b == (self@ == other@),
    {
        match self.compare(other) {
            Order::Equal => true,
            _ => false,
        }
    }

    /// The parent directory (the empty path for a top-level entry).
    pub fn parent(&self) -> (r: RelPath)
        ensures
            r@ == parent_of(self@),
    {
        let n = self.components.len();
        let mut comps: Vec<Vec<char>> = Vec::new();
        if n == 0 {
            let r = RelPath { components: comps };
            proof {
                assert(r@ =~= parent_of(self@));
            }
            return r;
        }
        let mut i: usize = 0;
        while i < n - 1
            invariant
                n == self.components.len(),
                n > 0,
                i <= n - 1,
                comps@.len() == i,
                forall|j: int| 0 <= j < i ==> comps@[j]@ == self.components@[j]@,
            decreases n - 1 - i,
        {
            comps.push(copy_chars(&self.components[i]));
            i = i + 1;
        }
        let r = RelPath { components: comps };
        proof {
            assert(r@ =~= parent_of(self@));
        }
        r
    }

    /// The last component, if any.
    pub fn file_name(&self) -> (r: Option<Vec<char>>)
        ensures
            self@.len() == 0 ==> r is None,
            self@.len() > 0 ==> (r matches Some(c) && c@ == self@.last()),
    {
        let n = self.components.len();
        if n == 0 {
            None
        } else {
            Some(copy_chars(&self.components[n - 1]))
        }
    }

    /// The components joined by `/`.
    pub fn display_chars(&self) -> (r: Vec<char>)
        ensures
            r@ == join_components(self@),
    {
        let mut out: Vec<char> = Vec::new();
        let n = self.components.len();
        let mut i: usize = 0;
        while i < n
            invariant
                n == self.components.len(),
                i <= n,
                out@ == join_components(self@.take(i as int)),
            decreases n - i,
        {
            let ghost before = out@;
            if i > 0 {
                out.push('/');
            }
            let comp = &self.components[i];
            let mut j: usize = 0;
            while j < comp.len()
                invariant
                    j <= comp.len(),
                    i < n,
                    i > 0 ==> out@ == before + seq!['/'] + comp@.take(j as int),
                    i == 0 ==> out@ == before + comp@.take(j as int),
                decreases comp.len() - j,
            {
                out.push(comp[j]);
                j = j + 1;
                proof {
                    assert(comp@.take(j as int) =~= comp@.take((j - 1) as int).push(comp@[j - 1]));
                    if i > 0 {
                        assert(out@ =~= before + seq!['/'] + comp@.take(j as int));
                    } else {
                        assert(out@ =~= before + comp@.take(j as int));
                    }
                }
            }
            proof {
                assert(comp@.take(j as int) =~= comp@);
                let t = self@.take((i + 1) as int);
                assert(t.drop_last() =~= self@.take(i as int));
                assert(t.last() == self@[i as int]);
                if i == 0 {
                    assert(self@.take(0) =~= Seq::<Seq<char>>::empty());
                    assert(t.len() == 1);
                    assert(out@ =~= t[0]);
                }
            }
            i = i + 1;
        }
        proof {
            assert(self@.take(n as int) =~= self@);
        }
        out
    }
}

} // verus!
