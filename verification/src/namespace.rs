//! Lexical scopes: a stack of frames that bind names to values.

use vstd::prelude::*;
use vstd::hash_map::StringHashMap;
use crate::ast::Value;
use crate::error::NamespaceError;

verus! {

/// What a frame records for a name: its value, and whether the name was
/// declared with `let mut` in that frame.
#[derive(Debug, Clone, Copy, PartialEq, Eq, Structural)]
pub struct Binding {
    pub value: Value,
    pub mutable: bool,
}

/// The bindings of one lexical scope.
pub type Frame = Map<Seq<char>, Binding>;

/// A stack of frames, the root first and the innermost last.
pub type Scopes = Seq<Frame>;

/// The index of the innermost frame that binds `name`, if any does.
pub open spec fn binder(s: Scopes, name: Seq<char>) -> Option<int>
    decreases s.len(),
{
    if s.len() == 0 {
        None
    } else if s.last().contains_key(name) {
        Some(s.len() - 1)
    } else {
        binder(s.drop_last(), name)
    }
}

/// The value that `name` stands for: the one in the innermost frame that binds it.
pub open spec fn lookup(s: Scopes, name: Seq<char>) -> Option<Value> {
    match binder(s, name) {
        Some(i) => Some(s[i][name].value),
        None => None,
    }
}

/// Whether some frame on the stack holds `name` as declared with `let mut`.
pub open spec fn is_mutable(s: Scopes, name: Seq<char>) -> bool {
    exists|i: int| 0 <= i < s.len() && #[trigger] s[i].contains_key(name) && s[i][name].mutable
}

/// Whether the innermost frame already declares `name`.
pub open spec fn declared_here(s: Scopes, name: Seq<char>) -> bool {
    s.len() > 0 && s.last().contains_key(name)
}

/// The stack after `name` is declared in the innermost frame.
pub open spec fn declare(s: Scopes, name: Seq<char>, value: Value, mutable: bool) -> Scopes {
    s.update(s.len() - 1, s.last().insert(name, Binding { value, mutable }))
}

/// The stack after the innermost binding of `name` takes a new value.
/// The binding keeps its frame and its mutability.
pub open spec fn assign(s: Scopes, name: Seq<char>, value: Value) -> Scopes {
    match binder(s, name) {
        Some(i) => s.update(i, s[i].insert(name, Binding { value, mutable: s[i][name].mutable })),
        None => s,
    }
}

/// The stack with one more, empty, frame.
pub open spec fn entered(s: Scopes) -> Scopes {
    s.push(Map::empty())
}

/// A namespace: nested lexical scopes with declaration, lookup and mutation.
///
/// A frame records with each name whether it was declared with `let mut`.
/// So a frame's mutable names are among the names it binds, and they leave
/// the stack with it.
pub trait NameSpace: Sized {
    /// The frames of the namespace.
    spec fn scopes(&self) -> Scopes;

    /// The invariant of the implementation.
    spec fn wf(&self) -> bool;

    /// A namespace of one empty frame, the root.
    fn root() -> (ns: Self)
        ensures
            ns.wf(),
            ns.scopes() == seq![Map::<Seq<char>, Binding>::empty()],
    ;

    /// The value bound to `x` in the nearest enclosing frame.
    fn get(&self, x: &str) -> (r: Option<Value>)
        requires
            self.wf(),
        ensures
            r == lookup(self.scopes(), x@),
    ;

    /// Declares `x` as immutable in the innermost frame, unless that frame
    /// already declares it.
    fn add(&mut self, x: String, v: Value) -> (r: Result<(), NamespaceError>)
        requires
            old(self).wf(),
        ensures
            final(self).wf(),
            declared_here(old(self).scopes(), x@) ==> r == Err::<(), _>(
                NamespaceError::AlreadyDefined,
            ) && final(self).scopes() == old(self).scopes(),
            !declared_here(old(self).scopes(), x@) ==> r == Ok::<(), NamespaceError>(())
                && final(self).scopes() == declare(old(self).scopes(), x@, v, false),
    ;

    /// Whether some frame on the stack marks `x` as mutable.
    fn is_mutable(&self, x: &str) -> (r: bool)
        requires
            self.wf(),
        ensures
            r == is_mutable(self.scopes(), x@),
    ;

    /// Declares `x` as mutable in the innermost frame, unless that frame
    /// already declares it.
    fn add_mutable(&mut self, x: String, v: Value) -> (r: Result<(), NamespaceError>)
        requires
            old(self).wf(),
        ensures
            final(self).wf(),
            declared_here(old(self).scopes(), x@) ==> r == Err::<(), _>(
                NamespaceError::AlreadyDefined,
            ) && final(self).scopes() == old(self).scopes(),
            !declared_here(old(self).scopes(), x@) ==> r == Ok::<(), NamespaceError>(())
                && final(self).scopes() == declare(old(self).scopes(), x@, v, true),
    ;

    /// Gives the innermost binding of `x` a new value, if `x` is mutable.
    fn mutate(&mut self, x: String, v: Value) -> (r: Result<(), NamespaceError>)
        requires
            old(self).wf(),
        ensures
            final(self).wf(),
            !is_mutable(old(self).scopes(), x@) ==> r == Err::<(), _>(NamespaceError::NotMutable)
                && final(self).scopes() == old(self).scopes(),
            is_mutable(old(self).scopes(), x@) ==> r == Ok::<(), NamespaceError>(())
                && final(self).scopes() == assign(old(self).scopes(), x@, v),
    ;

    /// Opens a new innermost frame.
    fn enter_block(&mut self)
        requires
            old(self).wf(),
        ensures
            final(self).wf(),
            final(self).scopes() == entered(old(self).scopes()),
    ;

    /// Closes the innermost frame, unless it is the root.
    fn exit_block(&mut self) -> (r: Result<(), NamespaceError>)
        requires
            old(self).wf(),
        ensures
            final(self).wf(),
            old(self).scopes().len() <= 1 ==> r == Err::<(), _>(NamespaceError::CannotExitRoot)
                && final(self).scopes() == old(self).scopes(),
            old(self).scopes().len() > 1 ==> r == Ok::<(), NamespaceError>(())
                && final(self).scopes() == old(self).scopes().drop_last(),
    ;
}

/// The stack of frames as hash maps.
pub struct VNameSpace {
    stack: Vec<StringHashMap<Binding>>,
}

/// The innermost binder of a name is found in the last frame or below it.
pub proof fn lemma_binder_step(s: Scopes, name: Seq<char>, n: int)
    requires
        0 < n <= s.len(),
    ensures
        binder(s.take(n), name) == if s[n - 1].contains_key(name) {
            Some(n - 1)
        } else {
            binder(s.take(n - 1), name)
        },
{
    assert(s.take(n).drop_last() =~= s.take(n - 1));
}

/// The innermost binder of `name` is a frame that binds it, and no frame
/// above it does.
pub proof fn lemma_binder_innermost(s: Scopes, name: Seq<char>)
    ensures
        match binder(s, name) {
            Some(i) => 0 <= i < s.len() && s[i].contains_key(name) && forall|j: int|
                i < j < s.len() ==> !(#[trigger] s[j]).contains_key(name),
            None => forall|j: int| 0 <= j < s.len() ==> !(#[trigger] s[j]).contains_key(name),
        },
    decreases s.len(),
{
    if s.len() > 0 && !s.last().contains_key(name) {
        lemma_binder_innermost(s.drop_last(), name);
        assert(forall|j: int| 0 <= j < s.len() - 1 ==> s[j] == s.drop_last()[j]);
    }
}

/// Stacks whose frames bind a name alike have the same innermost binder of it.
pub proof fn lemma_binder_agrees(s: Scopes, t: Scopes, name: Seq<char>)
    requires
        s.len() == t.len(),
        forall|j: int|
            0 <= j < s.len() ==> (#[trigger] s[j]).contains_key(name) == t[j].contains_key(name),
    ensures
        binder(s, name) == binder(t, name),
{
    lemma_binder_innermost(s, name);
    lemma_binder_innermost(t, name);
    match (binder(s, name), binder(t, name)) {
        (Some(i), Some(k)) => {
            assert(s[i].contains_key(name) == t[i].contains_key(name));
            assert(s[k].contains_key(name) == t[k].contains_key(name));
            assert(t[i].contains_key(name));
            assert(s[k].contains_key(name));
        },
        (Some(i), None) => {
            assert(s[i].contains_key(name) == t[i].contains_key(name));
            assert(!t[i].contains_key(name));
        },
        (None, Some(k)) => {
            assert(s[k].contains_key(name) == t[k].contains_key(name));
            assert(!s[k].contains_key(name));
        },
        (None, None) => {},
    }
}

/// A declaration in the innermost frame: the name stands for the declared
/// value and is declared there, so that a second declaration is refused;
/// every other name is as it was.
pub proof fn law_declare(s: Scopes, name: Seq<char>, value: Value, mutable: bool, other: Seq<char>)
    requires
        s.len() >= 1,
    ensures
        lookup(declare(s, name, value, mutable), name) == Some(value),
        declared_here(declare(s, name, value, mutable), name),
        other != name ==> lookup(declare(s, name, value, mutable), other) == lookup(s, other),
        other != name ==> is_mutable(declare(s, name, value, mutable), other) == is_mutable(
            s,
            other,
        ),
{
    let after = declare(s, name, value, mutable);
    if other != name {
        assert forall|j: int| 0 <= j < s.len() implies (#[trigger] s[j]).contains_key(other)
            == after[j].contains_key(other) by {}
        lemma_binder_agrees(s, after, other);
        lemma_binder_innermost(s, other);
        if is_mutable(s, other) {
            let i = choose|i: int|
                0 <= i < s.len() && #[trigger] s[i].contains_key(other) && s[i][other].mutable;
            assert(after[i].contains_key(other) && after[i][other].mutable);
        }
        if is_mutable(after, other) {
            let i = choose|i: int|
                0 <= i < after.len() && #[trigger] after[i].contains_key(other)
                    && after[i][other].mutable;
            assert(s[i].contains_key(other) && s[i][other].mutable);
        }
    }
}

/// Shadowing: a name declared in a new block stands for its new value while
/// the block lasts, whatever it stood for outside; and once the block is
/// left, the scopes are those from before it.
pub proof fn law_shadowing(s: Scopes, name: Seq<char>, value: Value, mutable: bool)
    requires
        s.len() >= 1,
    ensures
        !declared_here(entered(s), name),
        lookup(declare(entered(s), name, value, mutable), name) == Some(value),
        declare(entered(s), name, value, mutable).len() > 1,
        declare(entered(s), name, value, mutable).drop_last() == s,
{
    assert(declare(entered(s), name, value, mutable).drop_last() =~= s);
}

/// A name that is mutable nowhere on the stack is not made mutable by a
/// plain declaration, so that it cannot be mutated.
pub proof fn law_plain_declaration_is_immutable(s: Scopes, name: Seq<char>, value: Value)
    requires
        s.len() >= 1,
        !is_mutable(s, name),
    ensures
        !is_mutable(declare(s, name, value, false), name),
{
    let after = declare(s, name, value, false);
    if is_mutable(after, name) {
        let i = choose|i: int|
            0 <= i < after.len() && #[trigger] after[i].contains_key(name)
                && after[i][name].mutable;
        assert(s[i].contains_key(name) && s[i][name].mutable);
    }
}

/// A name declared mutable is mutable.
pub proof fn law_mutable_declaration_is_mutable(s: Scopes, name: Seq<char>, value: Value)
    requires
        s.len() >= 1,
    ensures
        is_mutable(declare(s, name, value, true), name),
{
    let after = declare(s, name, value, true);
    assert(after[s.len() - 1].contains_key(name) && after[s.len() - 1][name].mutable);
}

/// An assignment to a bound name: the name stands for the new value; the
/// frames stay as many, and what is mutable stays so; every other name is as
/// it was.
pub proof fn law_assign(s: Scopes, name: Seq<char>, value: Value, other: Seq<char>)
    requires
        lookup(s, name) is Some,
    ensures
        lookup(assign(s, name, value), name) == Some(value),
        assign(s, name, value).len() == s.len(),
        is_mutable(assign(s, name, value), other) == is_mutable(s, other),
        other != name ==> lookup(assign(s, name, value), other) == lookup(s, other),
{
    let after = assign(s, name, value);
    lemma_binder_innermost(s, name);
    lemma_binder_innermost(s, other);
    assert forall|j: int| 0 <= j < s.len() implies (#[trigger] s[j]).contains_key(other)
        == after[j].contains_key(other) by {}
    assert forall|j: int| 0 <= j < s.len() implies (#[trigger] s[j]).contains_key(name)
        == after[j].contains_key(name) by {}
    lemma_binder_agrees(s, after, name);
    lemma_binder_agrees(s, after, other);
    if is_mutable(s, other) {
        let i = choose|i: int|
            0 <= i < s.len() && #[trigger] s[i].contains_key(other) && s[i][other].mutable;
        assert(after[i].contains_key(other) && after[i][other].mutable);
    }
    if is_mutable(after, other) {
        let i = choose|i: int|
            0 <= i < after.len() && #[trigger] after[i].contains_key(other)
                && after[i][other].mutable;
        assert(s[i].contains_key(other) && s[i][other].mutable);
    }
}

/// A name that is mutable is bound, so that mutating it cannot fail for
/// want of a binding.
pub proof fn law_mutable_is_bound(s: Scopes, name: Seq<char>)
    requires
        is_mutable(s, name),
    ensures
        lookup(s, name) is Some,
{
    lemma_binder_innermost(s, name);
}

impl NameSpace for VNameSpace {
    closed spec fn scopes(&self) -> Scopes {
        Seq::new(self.stack@.len(), |i: int| self.stack@[i]@)
    }

    closed spec fn wf(&self) -> bool {
        self.stack@.len() >= 1
    }

    fn root() -> (ns: VNameSpace) {
        let mut stack: Vec<StringHashMap<Binding>> = Vec::new();
        stack.push(StringHashMap::new());
        let ns = VNameSpace { stack };
        assert(ns.scopes() =~= seq![Map::<Seq<char>, Binding>::empty()]);
        ns
    }

    fn get(&self, x: &str) -> (r: Option<Value>) {
        let mut i: usize = self.stack.len();
        assert(self.scopes().take(i as int) =~= self.scopes());
        while i > 0
            invariant
                i <= self.stack@.len(),
                binder(self.scopes(), x@) == binder(self.scopes().take(i as int), x@),
            decreases i,
        {
            proof {
                lemma_binder_step(self.scopes(), x@, i as int);
            }
            i = i - 1;
            match self.stack[i].get(x) {
                Some(b) => {
                    return Some(b.value);
                },
                None => {},
            }
        }
        None
    }

    fn add(&mut self, x: String, v: Value) -> (r: Result<(), NamespaceError>) {
        let last: usize = self.stack.len() - 1;
        if self.stack[last].contains_key(x.as_str()) {
            Err(NamespaceError::AlreadyDefined)
        } else {
            self.stack[last].insert(x, Binding { value: v, mutable: false });
            assert(self.scopes() =~= declare(old(self).scopes(), x@, v, false));
            Ok(())
        }
    }

    fn is_mutable(&self, x: &str) -> (r: bool) {
        let mut i: usize = 0;
        while i < self.stack.len()
            invariant
                i <= self.stack@.len(),
                forall|j: int|
                    0 <= j < i ==> !((#[trigger] self.scopes()[j]).contains_key(x@)
                        && self.scopes()[j][x@].mutable),
            decreases self.stack@.len() - i,
        {
            match self.stack[i].get(x) {
                Some(b) => {
                    if b.mutable {
                        assert(self.scopes()[i as int].contains_key(x@));
                        return true;
                    }
                },
                None => {},
            }
            i = i + 1;
        }
        false
    }

    fn add_mutable(&mut self, x: String, v: Value) -> (r: Result<(), NamespaceError>) {
        let last: usize = self.stack.len() - 1;
        if self.stack[last].contains_key(x.as_str()) {
            Err(NamespaceError::AlreadyDefined)
        } else {
            self.stack[last].insert(x, Binding { value: v, mutable: true });
            assert(self.scopes() =~= declare(old(self).scopes(), x@, v, true));
            Ok(())
        }
    }

    fn mutate(&mut self, x: String, v: Value) -> (r: Result<(), NamespaceError>) {
        if !self.is_mutable(x.as_str()) {
            return Err(NamespaceError::NotMutable);
        }
        proof {
            lemma_binder_innermost(self.scopes(), x@);
        }
        let mut i: usize = self.stack.len();
        assert(self.scopes().take(i as int) =~= self.scopes());
        while i > 0
            invariant
                i <= self.stack@.len(),
                *self == *old(self),
                is_mutable(old(self).scopes(), x@),
                binder(self.scopes(), x@) is Some,
                binder(self.scopes(), x@) == binder(self.scopes().take(i as int), x@),
            decreases i,
        {
            proof {
                lemma_binder_step(self.scopes(), x@, i as int);
            }
            i = i - 1;
            match self.stack[i].get(x.as_str()) {
                Some(b) => {
                    let mutable = b.mutable;
                    self.stack[i].insert(x, Binding { value: v, mutable });
                    assert(self.scopes() =~= assign(old(self).scopes(), x@, v));
                    return Ok(());
                },
                None => {},
            }
        }
        // Not reached: a name that is mutable is bound.
        Err(NamespaceError::NotDefined)
    }

    fn enter_block(&mut self) {
        self.stack.push(StringHashMap::new());
        assert(self.scopes() =~= entered(old(self).scopes()));
    }

    fn exit_block(&mut self) -> (r: Result<(), NamespaceError>) {
        if self.stack.len() == 1 {
            return Err(NamespaceError::CannotExitRoot);
        }
        self.stack.pop();
        assert(self.scopes() =~= old(self).scopes().drop_last());
        Ok(())
    }
}

} // verus!
