//! Scopes: a chain of frames that map names to values.

use vstd::prelude::*;
use crate::error::{RuntimeError, RuntimeErrorModel};
use crate::value::{Value, ValueModel};

verus! {

/// The bindings of one scope.
pub type Frame = Map<Seq<char>, ValueModel>;

/// The scopes in force, the innermost first.
pub type Frames = Seq<Frame>;

/// The value bound to `name` in the innermost scope that holds it.
pub open spec fn lookup(frames: Frames, name: Seq<char>) -> Option<ValueModel>
    decreases frames.len(),
{
    if frames.len() == 0 {
        None
    } else if frames[0].dom().contains(name) {
        Some(frames[0][name])
    } else {
        lookup(frames.drop_first(), name)
    }
}

/// The scopes after `name` has been bound to `v` in the innermost scope.
pub open spec fn defined(frames: Frames, name: Seq<char>, v: ValueModel) -> Frames {
    if frames.len() == 0 {
        frames
    } else {
        frames.update(0, frames[0].insert(name, v))
    }
}

/// The scopes after the binding of `name` in the innermost scope that holds
/// it has been set to `v`, or `None` where no scope holds it.
pub open spec fn assigned(frames: Frames, name: Seq<char>, v: ValueModel) -> Option<Frames>
    decreases frames.len(),
{
    if frames.len() == 0 {
        None
    } else if frames[0].dom().contains(name) {
        Some(frames.update(0, frames[0].insert(name, v)))
    } else {
        match assigned(frames.drop_first(), name, v) {
            Some(outer) => Some(seq![frames[0]] + outer),
            None => None,
        }
    }
}

/// The scopes with a new, empty scope in front.
pub open spec fn pushed(frames: Frames) -> Frames {
    seq![Map::empty()] + frames
}

/// The scopes without the innermost one.
pub open spec fn popped(frames: Frames) -> Frames {
    frames.drop_first()
}

/// A declaration in an inner scope shadows and never changes an outer
/// binding: after the same name has been declared in a new scope and
/// assigned there, leaving that scope gives back the scopes as they were.
pub proof fn inner_declaration_leaves_outer_scopes(
    frames: Frames,
    name: Seq<char>,
    declared: ValueModel,
    set: ValueModel,
)
    ensures
        popped(defined(pushed(frames), name, declared)) == frames,
        assigned(defined(pushed(frames), name, declared), name, set) matches Some(after)
            && popped(after) == frames,
        lookup(defined(pushed(frames), name, declared), name) == Some(declared),
{
    let inner = defined(pushed(frames), name, declared);
    assert(inner[0].dom().contains(name));
    assert(popped(inner) =~= frames);
    let after = assigned(inner, name, set)->0;
    assert(popped(after) =~= frames);
}

/// Assignment creates no binding and no scope: it succeeds exactly where a
/// lookup of the name does, and afterwards there are as many scopes as
/// before, each with the names it had.
pub proof fn assignment_creates_no_binding(frames: Frames, name: Seq<char>, v: ValueModel)
    ensures
        assigned(frames, name, v) is Some <==> lookup(frames, name) is Some,
        assigned(frames, name, v) matches Some(after) ==> {
            &&& after.len() == frames.len()
            &&& forall|i: int|
                0 <= i < frames.len() ==> #[trigger] after[i].dom() == frames[i].dom()
            &&& lookup(after, name) == Some(v)
        },
    decreases frames.len(),
{
    if frames.len() > 0 {
        if frames[0].dom().contains(name) {
            let after = frames.update(0, frames[0].insert(name, v));
            assert(after[0].dom() =~= frames[0].dom());
        } else {
            let outer = frames.drop_first();
            assignment_creates_no_binding(outer, name, v);
            match assigned(outer, name, v) {
                Some(rest) => {
                    let after = seq![frames[0]] + rest;
                    assert forall|i: int| 0 <= i < frames.len() implies #[trigger] after[i].dom()
                        == frames[i].dom() by {
                        if i > 0 {
                            assert(after[i] == rest[i - 1]);
                            assert(frames[i] == outer[i - 1]);
                        }
                    }
                    assert(after.drop_first() =~= rest);
                },
                None => {},
            }
        }
    }
}

/// The frame that a list of bindings stands for.
pub open spec fn bindings_map(list: Seq<(String, Value)>) -> Frame
    decreases list.len(),
{
    if list.len() == 0 {
        Map::empty()
    } else {
        bindings_map(list.drop_last()).insert(list.last().0@, list.last().1@)
    }
}

/// No name occurs twice in the list.
pub open spec fn distinct_names(list: Seq<(String, Value)>) -> bool {
    forall|i: int, j: int| 0 <= i < j < list.len() ==> list[i].0@ != list[j].0@
}

/// A name that no binding of the list has is not in the frame.
proof fn lemma_bindings_absent(list: Seq<(String, Value)>, name: Seq<char>)
    requires
        forall|i: int| 0 <= i < list.len() ==> (#[trigger] list[i]).0@ != name,
    ensures
        !bindings_map(list).dom().contains(name),
    decreases list.len(),
{
    if list.len() > 0 {
        lemma_bindings_absent(list.drop_last(), name);
    }
}

/// The frame maps the name of each binding of the list to its value.
proof fn lemma_bindings_find(list: Seq<(String, Value)>, i: int)
    requires
        distinct_names(list),
        0 <= i < list.len(),
    ensures
        bindings_map(list).dom().contains(list[i].0@),
        bindings_map(list)[list[i].0@] == list[i].1@,
    decreases list.len(),
{
    if i < list.len() - 1 {
        lemma_bindings_find(list.drop_last(), i);
    }
}

/// Replacing a binding by one of the same name sets that name in the frame.
proof fn lemma_bindings_update(list: Seq<(String, Value)>, i: int, entry: (String, Value))
    requires
        distinct_names(list),
        0 <= i < list.len(),
        entry.0@ == list[i].0@,
    ensures
        distinct_names(list.update(i, entry)),
        bindings_map(list.update(i, entry)) == bindings_map(list).insert(entry.0@, entry.1@),
    decreases list.len(),
{
    let changed = list.update(i, entry);
    if i == list.len() - 1 {
        assert(changed.drop_last() =~= list.drop_last());
        assert(bindings_map(changed) =~= bindings_map(list).insert(entry.0@, entry.1@));
    } else {
        lemma_bindings_update(list.drop_last(), i, entry);
        assert(changed.drop_last() =~= list.drop_last().update(i, entry));
        assert(changed.last() == list.last());
        assert(bindings_map(changed) =~= bindings_map(list).insert(entry.0@, entry.1@));
    }
}

/// A binding of a new name behind the list adds that name to the frame.
proof fn lemma_bindings_push(list: Seq<(String, Value)>, entry: (String, Value))
    requires
        distinct_names(list),
        forall|i: int| 0 <= i < list.len() ==> (#[trigger] list[i]).0@ != entry.0@,
    ensures
        distinct_names(list.push(entry)),
        bindings_map(list.push(entry)) == bindings_map(list).insert(entry.0@, entry.1@),
{
    assert(list.push(entry).drop_last() =~= list);
}

/// A scope with its enclosing scopes. A lookup or an assignment looks in the
/// scope itself first, then in the enclosing one.
///
/// The bindings of a scope are a list in which no name stands twice, and a
/// lookup walks it. A hash map keyed by strings would do the same work, but
/// vstd gives the hashing of a `String` no model, so nothing could be proved
/// of what such a map holds.
pub struct Environment {
    values: Vec<(String, Value)>,
    enclosing: Option<Box<Environment>>,
}

impl Environment {
    /// The scopes of the chain, the innermost first.
    pub closed spec fn frames(&self) -> Frames
        decreases self,
    {
        seq![bindings_map(self.values@)] + match self.enclosing {
            Some(outer) => outer.frames(),
            None => Seq::empty(),
        }
    }

    /// No scope of the chain holds a name twice.
    pub closed spec fn wf(&self) -> bool
        decreases self,
    {
        &&& distinct_names(self.values@)
        &&& match self.enclosing {
            Some(outer) => outer.wf(),
            None => true,
        }
    }

    /// A chain has at least one scope.
    pub proof fn lemma_frames(&self)
        ensures
            self.frames().len() >= 1,
    {
    }

    /// A single, empty scope.
    pub fn new() -> (env: Environment)
        ensures
            env.wf(),
            env.frames() == seq![Map::<Seq<char>, ValueModel>::empty()],
    {
        let env = Environment { values: Vec::new(), enclosing: None };
        assert(env.frames() =~= seq![Map::<Seq<char>, ValueModel>::empty()]);
        env
    }

    /// An empty scope inside `enclosing`.
    pub fn with_enclosing(enclosing: Environment) -> (env: Environment)
        requires
            enclosing.wf(),
        ensures
            env.wf(),
            env.frames() == pushed(enclosing.frames()),
    {
        let env = Environment { values: Vec::new(), enclosing: Some(Box::new(enclosing)) };
        assert(env.frames() =~= pushed(enclosing.frames()));
        env
    }

    /// Opens a new, empty scope inside the chain.
    pub fn push_scope(&mut self)
        requires
            old(self).wf(),
        ensures
            final(self).wf(),
            final(self).frames() == pushed(old(self).frames()),
    {
        let mut values: Vec<(String, Value)> = Vec::new();
        core::mem::swap(&mut self.values, &mut values);
        let outer = Environment { values, enclosing: self.enclosing.take() };
        assert(outer.frames() =~= old(self).frames());
        self.enclosing = Some(Box::new(outer));
        assert(self.frames() =~= pushed(old(self).frames()));
    }

    /// Leaves the innermost scope, which is not the only one.
    pub fn pop_scope(&mut self)
        requires
            old(self).wf(),
            old(self).frames().len() >= 2,
        ensures
            final(self).wf(),
            final(self).frames() == popped(old(self).frames()),
    {
        match self.enclosing.take() {
            Some(outer) => {
                assert(old(self).frames().drop_first() =~= outer.frames());
                *self = *outer;
            },
            None => {
                assert(old(self).frames().len() == 1);
            },
        }
    }

    /// The index of the binding of `name` in the innermost scope.
    fn find(&self, name: &String) -> (r: Option<usize>)
        ensures
            match r {
                Some(i) => i < self.values.len() && self.values[i as int].0@ == name@,
                None => forall|i: int|
                    0 <= i < self.values.len() ==> (#[trigger] self.values[i]).0@ != name@,
            },
    {
        let mut i: usize = 0;
        while i < self.values.len()
            invariant
                i <= self.values.len(),
                forall|j: int| 0 <= j < i ==> (#[trigger] self.values[j]).0@ != name@,
            decreases self.values.len() - i,
        {
            if self.values[i].0 == *name {
                return Some(i);
            }
            i += 1;
        }
        None
    }

    /// Binds `name` to `value` in the innermost scope. A binding of that
    /// name in the same scope is replaced; one in an enclosing scope is
    /// shadowed.
    pub fn define(&mut self, name: String, value: Value)
        requires
            old(self).wf(),
        ensures
            final(self).wf(),
            final(self).frames() == defined(old(self).frames(), name@, value@),
    {
        let ghost before = self.values@;
        let ghost entry = (name, value);
        match self.find(&name) {
            Some(i) => {
                proof {
                    lemma_bindings_update(before, i as int, entry);
                }
                self.values.set(i, (name, value));
            },
            None => {
                proof {
                    lemma_bindings_push(before, entry);
                }
                self.values.push((name, value));
            },
        }
        assert(self.frames() =~= defined(old(self).frames(), name@, value@));
    }

    /// Sets the binding of `name` in the innermost scope that holds it. A
    /// name that no scope holds is an error, and nothing is bound.
    pub fn assign(&mut self, name: &str, value: Value) -> (r: Result<(), RuntimeError>)
        requires
            old(self).wf(),
        ensures
            final(self).wf(),
            match assigned(old(self).frames(), name@, value@) {
                Some(frames) => r is Ok && final(self).frames() == frames,
                None => r is Err && r->Err_0@ == RuntimeErrorModel::UndefinedVariable(name@)
                    && final(self).frames() == old(self).frames(),
            },
            final(self).frames().len() == old(self).frames().len(),
        decreases old(self).frames().len(),
    {
        let key = name.to_owned();
        let ghost before = self.values@;
        let ghost entry = (key, value);
        match self.find(&key) {
            Some(i) => {
                proof {
                    lemma_bindings_update(before, i as int, entry);
                    lemma_bindings_find(before, i as int);
                }
                self.values.set(i, (key, value));
                assert(self.frames() =~= assigned(old(self).frames(), name@, value@)->0);
                Ok(())
            },
            None => {
                proof {
                    lemma_bindings_absent(before, name@);
                }
                match &mut self.enclosing {
                    Some(outer) => {
                        let ghost outer_frames = outer.frames();
                        assert(old(self).frames().drop_first() =~= outer_frames);
                        let r = outer.assign(name, value);
                        proof {
                            if r is Ok {
                                assert(self.frames() =~= assigned(
                                    old(self).frames(),
                                    name@,
                                    value@,
                                )->0);
                            } else {
                                assert(self.frames() =~= old(self).frames());
                            }
                        }
                        r
                    },
                    None => {
                        assert(old(self).frames().drop_first() =~= Seq::empty());
                        Err(RuntimeError::UndefinedVariable(key))
                    },
                }
            },
        }
    }

    /// A copy of the value bound to `name` in the innermost scope that holds
    /// it. A name that no scope holds is an error.
    pub fn get(&self, name: &str) -> (r: Result<Value, RuntimeError>)
        requires
            self.wf(),
        ensures
            match lookup(self.frames(), name@) {
                Some(v) => r is Ok && r->Ok_0@ == v,
                None => r is Err && r->Err_0@ == RuntimeErrorModel::UndefinedVariable(name@),
            },
        decreases self,
    {
        let key = name.to_owned();
        match self.find(&key) {
            Some(i) => {
                proof {
                    lemma_bindings_find(self.values@, i as int);
                }
                Ok(self.values[i].1.duplicate())
            },
            None => {
                proof {
                    lemma_bindings_absent(self.values@, name@);
                }
                match &self.enclosing {
                    Some(outer) => {
                        assert(self.frames().drop_first() =~= outer.frames());
                        outer.get(name)
                    },
                    None => {
                        assert(self.frames().drop_first() =~= Seq::empty());
                        Err(RuntimeError::UndefinedVariable(key))
                    },
                }
            },
        }
    }
}

} // verus!
