//! Environment: a stack of lexical scopes.
//!
//! A [`Stack`] is a chain of frames, each mapping interned symbols to
//! values; lookups walk from the innermost (top) frame outwards, and
//! inserts always target the top frame.  Its view is a sequence of maps,
//! bottom first.  The root stack holds the built-in arithmetic and
//! comparison functions.

use vstd::prelude::*;

use crate::eval::{Builtin, SpecValue, Value};
use crate::interner::{spec_intern, Interner, Symbol};

verus! {

broadcast use vstd::std_specs::vec::axiom_vec_index_decreases;

/// One scope frame: symbol/value bindings in insertion order, the most
/// recent binding of a symbol winning.
pub type Env = Vec<(Symbol, Value)>;

/// The map modelled by the first `n` entries of a frame.
pub open spec fn env_view(frame: Env, n: int) -> Map<int, SpecValue>
    decreases frame, n,
{
    if n <= 0 || n > frame.len() {
        Map::empty()
    } else {
        env_view(frame, n - 1).insert(frame[n - 1].0.0 as int, frame[n - 1].1@)
    }
}

/// The maps modelled by the first `n` frames of a stack, bottom first.
pub open spec fn frames_view(frames: Vec<Env>, n: int) -> Seq<Map<int, SpecValue>>
    decreases frames, n,
{
    if n <= 0 || n > frames.len() {
        Seq::empty()
    } else {
        frames_view(frames, n - 1).push(env_view(frames[n - 1], frames[n - 1].len() as int))
    }
}

/// `frames_view` is the element-wise model of the stack.
pub proof fn lemma_frames_view(frames: Vec<Env>, n: int)
    requires
        0 <= n <= frames.len(),
    ensures
        frames_view(frames, n).len() == n,
        forall|i: int|
            0 <= i < n ==> frames_view(frames, n)[i] == env_view(
                frames[i],
                frames[i].len() as int,
            ),
    decreases n,
{
    if n > 0 {
        lemma_frames_view(frames, n - 1);
        assert(frames_view(frames, n) == frames_view(frames, n - 1).push(
            env_view(frames[n - 1], frames[n - 1].len() as int),
        ));
    } else {
        assert(frames_view(frames, n).len() == 0);
    }
}

/// The first value bound to `sym` among the top `n` frames, walking from
/// the top (innermost) frame down.
pub open spec fn lookup_upto(frames: Seq<Map<int, SpecValue>>, n: int, sym: int) -> Option<
    SpecValue,
>
    decreases n,
{
    if n <= 0 || n > frames.len() {
        None
    } else if frames[n - 1].contains_key(sym) {
        Some(frames[n - 1][sym])
    } else {
        lookup_upto(frames, n - 1, sym)
    }
}

/// The value bound to `sym` in a stack of frames, innermost frame first.
pub open spec fn stack_lookup(frames: Seq<Map<int, SpecValue>>, sym: int) -> Option<SpecValue> {
    lookup_upto(frames, frames.len() as int, sym)
}

/// The stack with `sym` bound to `v` in its top frame.
pub open spec fn stack_set_top(
    frames: Seq<Map<int, SpecValue>>,
    sym: int,
    v: SpecValue,
) -> Seq<Map<int, SpecValue>> {
    frames.update(frames.len() - 1, frames.last().insert(sym, v))
}

/// A stack of environments.
pub struct Stack {
    frames: Vec<Env>,
}

impl View for Stack {
    type V = Seq<Map<int, SpecValue>>;

    closed spec fn view(&self) -> Seq<Map<int, SpecValue>> {
        frames_view(self.frames, self.frames.len() as int)
    }
}

/// Searches one frame from its most recent entry down.
fn env_get_upto(frame: &Env, n: usize, symbol: Symbol) -> (r: Option<&Value>)
    requires
        n <= frame@.len(),
    ensures
        match r {
            Some(v) => env_view(*frame, n as int).contains_key(symbol.0 as int) && env_view(
                *frame,
                n as int,
            )[symbol.0 as int] == v@,
            None => !env_view(*frame, n as int).contains_key(symbol.0 as int),
        },
    decreases n,
{
    if n == 0 {
        None
    } else {
        let (key, value) = &frame[n - 1];
        if key.0 == symbol.0 {
            Some(value)
        } else {
            env_get_upto(frame, n - 1, symbol)
        }
    }
}

/// Searches the frames from index `n` down.
fn stack_get_upto(frames: &Vec<Env>, n: usize, symbol: Symbol) -> (r: Option<&Value>)
    requires
        n <= frames@.len(),
    ensures
        ({
            let fv = frames_view(*frames, frames@.len() as int);
            match r {
                Some(v) => lookup_upto(fv, n as int, symbol.0 as int) == Some(v@),
                None => lookup_upto(fv, n as int, symbol.0 as int) is None,
            }
        }),
    decreases n,
{
    proof {
        lemma_frames_view(*frames, frames@.len() as int);
    }
    if n == 0 {
        None
    } else {
        let frame = &frames[n - 1];
        match env_get_upto(frame, frame.len(), symbol) {
            Some(v) => Some(v),
            None => stack_get_upto(frames, n - 1, symbol),
        }
    }
}

impl Stack {
    /// A stack always has at least its root frame.
    pub open spec fn wf(&self) -> bool {
        self@.len() >= 1
    }

    /// How many frames the stack holds.
    pub closed spec fn depth(&self) -> int {
        self.frames.len() as int
    }

    /// Pushes a new environment onto the stack; it becomes the top frame.
    pub fn push(&mut self, env: Env)
        ensures
            final(self)@ == old(self)@.push(env_view(env, env@.len() as int)),
            final(self).wf(),
    {
        proof {
            lemma_frames_view(self.frames, self.frames@.len() as int);
        }
        let ghost old_frames = self.frames;
        self.frames.push(env);
        proof {
            lemma_frames_view(self.frames, self.frames@.len() as int);
            lemma_frames_view(old_frames, old_frames@.len() as int);
            assert(self@ =~= old(self)@.push(env_view(env, env@.len() as int)));
        }
    }

    /// Discards the top frame.
    pub fn pop(&mut self)
        requires
            old(self)@.len() >= 2,
        ensures
            final(self)@ == old(self)@.drop_last(),
            final(self).wf(),
    {
        proof {
            lemma_frames_view(self.frames, self.frames@.len() as int);
        }
        let ghost old_frames = self.frames;
        let _ = self.frames.pop();
        proof {
            lemma_frames_view(self.frames, self.frames@.len() as int);
            lemma_frames_view(old_frames, old_frames@.len() as int);
            assert(forall|i: int|
                0 <= i < self.frames@.len() ==> old_frames@[i] == self.frames@[i]);
            assert(self@ =~= old(self)@.drop_last());
        }
    }

    /// Searches the stack (from top to bottom) and retrieves the first
    /// value that's associated to `symbol`.
    pub fn get(&self, symbol: Symbol) -> (r: Option<&Value>)
        ensures
            match r {
                Some(v) => stack_lookup(self@, symbol.0 as int) == Some(v@),
                None => stack_lookup(self@, symbol.0 as int) is None,
            },
    {
        proof {
            lemma_frames_view(self.frames, self.frames@.len() as int);
        }
        stack_get_upto(&self.frames, self.frames.len(), symbol)
    }

    /// Inserts a `symbol`/`value` pair in the top environment.
    pub fn insert(&mut self, symbol: Symbol, value: Value)
        requires
            old(self).wf(),
        ensures
            final(self)@ == stack_set_top(old(self)@, symbol.0 as int, value@),
            final(self).wf(),
    {
        proof {
            lemma_frames_view(self.frames, self.frames@.len() as int);
        }
        let ghost old_frames = self.frames;
        let ghost old_view = self@;
        let ghost vg = value@;
        let frame_opt = self.frames.pop();
        let mut frame = match frame_opt {
            Some(f) => f,
            None => Vec::new(),
        };
        let ghost before = frame;
        frame.push((symbol, value));
        proof {
            lemma_env_view_congruence(before, frame, before@.len() as int);
            assert(env_view(frame, frame@.len() as int) == env_view(
                frame,
                frame@.len() as int - 1,
            ).insert(symbol.0 as int, vg));
        }
        self.frames.push(frame);
        proof {
            lemma_frames_view(self.frames, self.frames@.len() as int);
            lemma_frames_view(old_frames, old_frames@.len() as int);
            assert(forall|i: int|
                0 <= i < old_frames@.len() - 1 ==> self.frames@[i] == old_frames@[i]);
            assert(self@ =~= stack_set_top(old_view, symbol.0 as int, vg));
        }
    }
}

/// What [`default`] builds: the interner table after interning the eight
/// built-in names (in the order `*`, `+`, `-`, `/`, `<`, `<=`, `>`, `>=`)
/// and the root frame binding each to its function.
pub open spec fn spec_default(names: Seq<Seq<char>>) -> (Seq<Seq<char>>, Map<int, SpecValue>) {
    let (n1, s1) = spec_intern(names, "*"@);
    let (n2, s2) = spec_intern(n1, "+"@);
    let (n3, s3) = spec_intern(n2, "-"@);
    let (n4, s4) = spec_intern(n3, "/"@);
    let (n5, s5) = spec_intern(n4, "<"@);
    let (n6, s6) = spec_intern(n5, "<="@);
    let (n7, s7) = spec_intern(n6, ">"@);
    let (n8, s8) = spec_intern(n7, ">="@);
    let m = Map::<int, SpecValue>::empty()
        .insert(s1, SpecValue::Function(Builtin::Mul))
        .insert(s2, SpecValue::Function(Builtin::Add))
        .insert(s3, SpecValue::Function(Builtin::Sub))
        .insert(s4, SpecValue::Function(Builtin::Div))
        .insert(s5, SpecValue::Function(Builtin::Lt))
        .insert(s6, SpecValue::Function(Builtin::Le))
        .insert(s7, SpecValue::Function(Builtin::Gt))
        .insert(s8, SpecValue::Function(Builtin::Ge));
    (n8, m)
}

/// The default environment stack: one root frame holding the built-in
/// arithmetic and comparison functions under their interned names.
pub fn default(interner: &mut Interner) -> (stack: Stack)
    requires
        old(interner).wf(),
    ensures
        final(interner).wf(),
        final(interner)@ == spec_default(old(interner)@).0,
        stack@ =~= seq![spec_default(old(interner)@).1],
        stack.wf(),
{
    let mut env: Env = Vec::new();
    let s1 = interner.intern("*");
    env.push((s1, Value::Function(Builtin::Mul)));
    let s2 = interner.intern("+");
    env.push((s2, Value::Function(Builtin::Add)));
    let s3 = interner.intern("-");
    env.push((s3, Value::Function(Builtin::Sub)));
    let s4 = interner.intern("/");
    env.push((s4, Value::Function(Builtin::Div)));
    let s5 = interner.intern("<");
    env.push((s5, Value::Function(Builtin::Lt)));
    let s6 = interner.intern("<=");
    env.push((s6, Value::Function(Builtin::Le)));
    let s7 = interner.intern(">");
    env.push((s7, Value::Function(Builtin::Gt)));
    let s8 = interner.intern(">=");
    env.push((s8, Value::Function(Builtin::Ge)));
    let mut frames: Vec<Env> = Vec::new();
    let ghost env_final = env;
    frames.push(env);
    let stack = Stack { frames };
    proof {
        lemma_frames_view(stack.frames, stack.frames@.len() as int);
        reveal_with_fuel(env_view, 9);
        assert(env_view(env_final, 8) == spec_default(old(interner)@).1);
        assert(stack@ =~= seq![spec_default(old(interner)@).1]);
    }
    stack
}

/// Two frames that agree on their first `n` entries model the same map up
/// to `n`.
pub proof fn lemma_env_view_congruence(f1: Env, f2: Env, n: int)
    requires
        n <= f1@.len(),
        n <= f2@.len(),
        forall|j: int| 0 <= j < n ==> f1@[j] == f2@[j],
    ensures
        env_view(f1, n) == env_view(f2, n),
    decreases n,
{
    if n > 0 {
        lemma_env_view_congruence(f1, f2, n - 1);
    }
}

} // verus!
