//! The aperture macros of a layer.
use crate::gerber_types::{ApertureMacro, ApertureMacroView};
use vstd::prelude::*;

verus! {

pub open spec fn macro_views<N>(s: Seq<ApertureMacro<N>>) -> Seq<ApertureMacroView<N>> {
    s.map_values(|m: ApertureMacro<N>| m@)
}

/// No name occurs twice.
pub open spec fn distinct_names<N>(macros: Seq<ApertureMacroView<N>>) -> bool {
    forall|i: int, j: int|
        0 <= i < j < macros.len() ==> (#[trigger] macros[i]).name != (#[trigger] macros[j]).name
}

/// The position of the macro `name`, or the number of macros.
pub open spec fn macro_place<N>(macros: Seq<ApertureMacroView<N>>, name: Seq<char>) -> nat
    decreases macros.len(),
{
    if macros.len() == 0 || macros[0].name == name {
        0
    } else {
        1 + macro_place(macros.skip(1), name)
    }
}

/// The macro `name`.
pub open spec fn macro_named<N>(macros: Seq<ApertureMacroView<N>>, name: Seq<char>) -> Option<
    ApertureMacroView<N>,
> {
    let p = macro_place(macros, name) as int;
    if p < macros.len() {
        Some(macros[p])
    } else {
        None
    }
}

/// `macros` with `m` among them, in place of one of the same name.
pub open spec fn with_macro<N>(
    macros: Seq<ApertureMacroView<N>>,
    m: ApertureMacroView<N>,
) -> Seq<ApertureMacroView<N>> {
    let p = macro_place(macros, m.name) as int;
    if p < macros.len() {
        macros.update(p, m)
    } else {
        macros.push(m)
    }
}

/// No macro before the place of a name has the name.
pub proof fn lemma_macro_place<N>(macros: Seq<ApertureMacroView<N>>, name: Seq<char>)
    ensures
        macro_place(macros, name) <= macros.len(),
        macro_place(macros, name) < macros.len() ==> macros[macro_place(macros, name) as int].name
            == name,
        forall|i: int| 0 <= i < macro_place(macros, name) ==> (#[trigger] macros[i]).name != name,
    decreases macros.len(),
{
    if macros.len() > 0 && macros[0].name != name {
        let t = macros.skip(1);
        lemma_macro_place(t, name);
        assert forall|i: int| 0 <= i < macro_place(macros, name) implies (
        #[trigger] macros[i]).name != name by {
            if i > 0 {
                assert(macros[i] == t[i - 1]);
            }
        }
    }
}

/// A macro takes the place of the one of its name, so that no name occurs twice.
pub proof fn lemma_with_macro<N>(macros: Seq<ApertureMacroView<N>>, m: ApertureMacroView<N>)
    requires
        distinct_names(macros),
    ensures
        distinct_names(with_macro(macros, m)),
{
    lemma_macro_place(macros, m.name);
    let p = macro_place(macros, m.name) as int;
    let w = with_macro(macros, m);
    assert forall|i: int, j: int| 0 <= i < j < w.len() implies (#[trigger] w[i]).name != (
    #[trigger] w[j]).name by {
        if i != p {
            assert(w[i] == macros[i]);
        }
        if j != p {
            assert(w[j] == macros[j]);
        }
        if p < macros.len() {
            assert(macros[i].name != macros[j].name);
        }
    }
}

/// Aperture macros. No name occurs twice.
pub struct Macros<N> {
    items: Vec<ApertureMacro<N>>,
}

impl<N> View for Macros<N> {
    type V = Seq<ApertureMacroView<N>>;

    closed spec fn view(&self) -> Seq<ApertureMacroView<N>> {
        macro_views(self.items@)
    }
}

impl<N> Macros<N> {
    #[verifier::type_invariant]
    spec fn are_distinct(self) -> bool {
        distinct_names(macro_views(self.items@))
    }

    /// No macros.
    pub fn new() -> (r: Self)
        ensures
            r@ == Seq::<ApertureMacroView<N>>::empty(),
            distinct_names(r@),
    {
        let r = Macros { items: Vec::new() };
        assert(r@ =~= Seq::<ApertureMacroView<N>>::empty());
        r
    }

    pub fn len(&self) -> (r: usize)
        ensures
            r == self@.len(),
            distinct_names(self@),
    {
        proof {
            use_type_invariant(self);
        }
        self.items.len()
    }

    pub fn is_empty(&self) -> (r: bool)
        ensures
            r == (self@.len() == 0),
    {
        self.items.len() == 0
    }

    /// The macro at position `i`.
    pub fn item(&self, i: usize) -> (r: &ApertureMacro<N>)
        requires
            i < self@.len(),
        ensures
            r@ == self@[i as int],
    {
        &self.items[i]
    }

    fn find(&self, name: &String) -> (p: usize)
        ensures
            p == macro_place(self@, name@),
            p <= self@.len(),
    {
        let ghost s = self@;
        let mut p: usize = 0;
        assert(s.skip(0) =~= s);
        while p < self.items.len()
            invariant
                p <= self.items@.len(),
                s == macro_views(self.items@),
                macro_place(s, name@) == p + macro_place(s.skip(p as int), name@),
            decreases self.items@.len() - p,
        {
            assert(s.skip(p as int)[0] == self.items@[p as int]@);
            assert(s.skip(p as int).skip(1) =~= s.skip(p + 1));
            if self.items[p].name == *name {
                return p;
            }
            p = p + 1;
        }
        p
    }

    /// The macro `name`.
    pub fn get(&self, name: &String) -> (r: Option<&ApertureMacro<N>>)
        ensures
            r is Some <==> macro_named(self@, name@) is Some,
            r matches Some(m) ==> macro_named(self@, name@) == Some(m@),
    {
        let p: usize = self.find(name);
        if p < self.items.len() {
            assert(self@[p as int] == self.items@[p as int]@);
            Some(&self.items[p])
        } else {
            None
        }
    }

    /// Adds a macro, in place of one of the same name.
    pub fn insert(&mut self, m: ApertureMacro<N>)
        ensures
            final(self)@ == with_macro(old(self)@, m@),
            distinct_names(final(self)@),
    {
        let p: usize = self.find(&m.name);
        let ghost before = self@;
        proof {
            use_type_invariant(&*self);
            lemma_with_macro(before, m@);
        }
        let mut items: Vec<ApertureMacro<N>> = Vec::new();
        assert(macro_views(items@) =~= Seq::<ApertureMacroView<N>>::empty());
        std::mem::swap(&mut items, &mut self.items);
        if p < items.len() {
            items.set(p, m);
        } else {
            items.push(m);
        }
        assert(macro_views(items@) =~= with_macro(before, m@));
        self.items = items;
    }

    /// The macros with a function applied to each that leaves the names as they are.
    pub fn map<F: Fn(&ApertureMacro<N>) -> ApertureMacro<N>>(
        &self,
        f: F,
        Ghost(g): Ghost<spec_fn(ApertureMacroView<N>) -> ApertureMacroView<N>>,
    ) -> (r: Self)
        requires
            forall|m: &ApertureMacro<N>| call_requires(f, (m,)),
            forall|m: &ApertureMacro<N>, n: ApertureMacro<N>| #[trigger]
                call_ensures(f, (m,), n) ==> n@ == g(m@),
            forall|m: ApertureMacroView<N>| (#[trigger] g(m)).name == m.name,
        ensures
            r@ == self@.map_values(g),
    {
        proof {
            use_type_invariant(self);
        }
        let mut items: Vec<ApertureMacro<N>> = Vec::new();
        let mut i: usize = 0;
        while i < self.items.len()
            invariant
                i <= self.items@.len(),
                items@.len() == i,
                forall|m: &ApertureMacro<N>| call_requires(f, (m,)),
                forall|m: &ApertureMacro<N>, n: ApertureMacro<N>| #[trigger]
                    call_ensures(f, (m,), n) ==> n@ == g(m@),
                forall|k: int| 0 <= k < i ==> (#[trigger] items@[k])@ == g(self.items@[k]@),
            decreases self.items@.len() - i,
        {
            items.push(f(&self.items[i]));
            i = i + 1;
        }
        proof {
            let s = self@;
            let t = macro_views(items@);
            assert(t =~= s.map_values(g));
            assert forall|i: int, j: int| 0 <= i < j < t.len() implies (#[trigger] t[i]).name != (
            #[trigger] t[j]).name by {
                assert(t[i].name == s[i].name && t[j].name == s[j].name);
            }
        }
        Macros { items }
    }
}

impl<N: Copy> Clone for Macros<N> {
    fn clone(&self) -> (r: Self)
        ensures
            r@ == self@,
    {
        proof {
            use_type_invariant(self);
        }
        let items = self.items.clone();
        assert(macro_views(items@) =~= macro_views(self.items@));
        Macros { items }
    }
}

} // verus!
