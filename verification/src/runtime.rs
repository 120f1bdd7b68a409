//! The tree-walking interpreter: runtime values, the lexical scope chain and
//! the evaluator with its browser-API bridge into the DOM.
//!
//! Scopes form a stack: a call pushes a fresh frame whose outer scope is the
//! caller's, and pops it when the call returns.  Since the language has no
//! persistent closures, the chain of a scope is exactly the frames below it
//! on that stack, and outer frames are only ever read, never written,
//! while an inner frame is live.

use std::rc::Rc;
use vstd::prelude::*;

use crate::ast::Node;
use crate::ast::Program;
use crate::dom::Window;
use crate::dom::spec_find_by_id;
use crate::dom::spec_set_text_content;
use crate::token::push_char;

verus! {

/// A value a script expression evaluates to.  An `HtmlElement` is a handle
/// into the window's node arena, optionally carrying a pending property name
/// that a following assignment resolves.
#[derive(Debug)]
pub enum RuntimeValue {
    Number(u64),
    StringLiteral(String),
    HtmlElement { object: usize, property: Option<String> },
}

/// Mathematical model of a [`RuntimeValue`].
pub enum ValueV {
    Number(u64),
    StringLiteral(Seq<char>),
    HtmlElement { object: usize, property: Option<Seq<char>> },
}

impl View for RuntimeValue {
    type V = ValueV;

    closed spec fn view(&self) -> ValueV {
        match self {
            RuntimeValue::Number(n) => ValueV::Number(*n),
            RuntimeValue::StringLiteral(s) => ValueV::StringLiteral(s@),
            RuntimeValue::HtmlElement { object, property } => ValueV::HtmlElement {
                object: *object,
                property: match property {
                    None => None,
                    Some(p) => Some(p@),
                },
            },
        }
    }
}

impl Clone for RuntimeValue {
    fn clone(&self) -> (r: Self)
        ensures
            r == *self,
    {
        match self {
            RuntimeValue::Number(n) => RuntimeValue::Number(*n),
            RuntimeValue::StringLiteral(s) => RuntimeValue::StringLiteral(s.clone()),
            RuntimeValue::HtmlElement { object, property } => RuntimeValue::HtmlElement {
                object: *object,
                property: match property {
                    None => None,
                    Some(p) => Some(p.clone()),
                },
            },
        }
    }
}

impl PartialEq for RuntimeValue {
    fn eq(&self, other: &Self) -> bool {
        match (self, other) {
            (RuntimeValue::Number(a), RuntimeValue::Number(b)) => *a == *b,
            (RuntimeValue::StringLiteral(a), RuntimeValue::StringLiteral(b)) => *a == *b,
            (
                RuntimeValue::HtmlElement { object: a, property: pa },
                RuntimeValue::HtmlElement { object: b, property: pb },
            ) => *a == *b && match (pa, pb) {
                (None, None) => true,
                (Some(x), Some(y)) => *x == *y,
                _ => false,
            },
            _ => false,
        }
    }
}

impl vstd::std_specs::cmp::PartialEqSpecImpl for RuntimeValue {
    open spec fn obeys_eq_spec() -> bool {
        true
    }

    open spec fn eq_spec(&self, other: &Self) -> bool {
        self@ == other@
    }
}

/// The decimal digit character for `d`.
pub open spec fn digit_char(d: int) -> char {
    ((d + 48) as u8) as char
}

/// The decimal representation of a non-negative number, most significant
/// digit first.
pub open spec fn dec_str(n: int) -> Seq<char>
    decreases n,
{
    if n < 0 {
        Seq::empty()
    } else if n < 10 {
        seq![digit_char(n)]
    } else {
        dec_str(n / 10).push(digit_char(n % 10))
    }
}

/// The display-string form of a value: a number in decimal, a string as
/// itself, and a DOM handle as the fixed word `HtmlElement`.
pub open spec fn display_of(v: ValueV) -> Seq<char> {
    match v {
        ValueV::Number(n) => dec_str(n as int),
        ValueV::StringLiteral(s) => s,
        ValueV::HtmlElement { .. } => "HtmlElement"@,
    }
}

/// The decimal representation of a number.
fn u64_to_string(n: u64) -> (r: String)
    ensures
        r@ == dec_str(n as int),
    decreases n,
{
    if n < 10 {
        let mut s = String::new();
        let c = ((n % 10) as u8 + 48) as char;
        push_char(&mut s, c);
        proof {
            assert(s@ =~= seq![digit_char(n as int)]);
        }
        s
    } else {
        let mut s = u64_to_string(n / 10);
        let c = ((n % 10) as u8 + 48) as char;
        push_char(&mut s, c);
        s
    }
}

/// Addition: two numbers add with unsigned wraparound; any other pair
/// concatenates the display strings of both sides.
pub open spec fn spec_add(a: ValueV, b: ValueV) -> ValueV {
    match (a, b) {
        (ValueV::Number(x), ValueV::Number(y)) => ValueV::Number(
            vstd::wrapping::u64_specs::wrapping_add(x, y),
        ),
        _ => ValueV::StringLiteral(display_of(a) + display_of(b)),
    }
}

/// Subtraction: two numbers subtract, saturating at zero when the result
/// would fall below it; any other pair yields the zero number.
pub open spec fn spec_sub(a: ValueV, b: ValueV) -> ValueV {
    match (a, b) {
        (ValueV::Number(x), ValueV::Number(y)) => ValueV::Number(
            if x >= y {
                (x - y) as u64
            } else {
                0
            },
        ),
        _ => ValueV::Number(0),
    }
}

impl RuntimeValue {
    /// The display-string form of this value.
    pub fn to_string(&self) -> (r: String)
        ensures
            r@ == display_of(self@),
    {
        match self {
            RuntimeValue::Number(n) => u64_to_string(*n),
            RuntimeValue::StringLiteral(s) => s.clone(),
            RuntimeValue::HtmlElement { .. } => String::from_str("HtmlElement"),
        }
    }

    /// Script addition; see [`spec_add`].
    pub fn add(self, rhs: RuntimeValue) -> (r: RuntimeValue)
        ensures
            r@ == spec_add(self@, rhs@),
    {
        match (&self, &rhs) {
            (RuntimeValue::Number(x), RuntimeValue::Number(y)) => RuntimeValue::Number(
                x.wrapping_add(*y),
            ),
            _ => {
                let left = self.to_string();
                let right = rhs.to_string();
                RuntimeValue::StringLiteral(left.concat(right.as_str()))
            },
        }
    }

    /// Script subtraction; see [`spec_sub`].
    pub fn sub(self, rhs: RuntimeValue) -> (r: RuntimeValue)
        ensures
            r@ == spec_sub(self@, rhs@),
    {
        match (&self, &rhs) {
            (RuntimeValue::Number(x), RuntimeValue::Number(y)) => RuntimeValue::Number(
                if *x >= *y {
                    *x - *y
                } else {
                    0
                },
            ),
            _ => RuntimeValue::Number(0),
        }
    }
}

} // verus!

verus! {

/// The bindings of one scope frame, in insertion order.
pub type VariableMap = Vec<(String, Option<RuntimeValue>)>;

/// The model of one binding: its name and its stored (optional) value.
pub type BindingV = (Seq<char>, Option<ValueV>);

/// The model of a scope stack: frame 0 is the root scope, the last frame is
/// the innermost live scope.
pub type EnvV = Seq<Seq<BindingV>>;

/// The model of an optional value.
pub open spec fn opt_value_view(v: Option<RuntimeValue>) -> Option<ValueV> {
    match v {
        None => None,
        Some(x) => Some(x@),
    }
}

/// The model of one binding.
pub open spec fn binding_view(b: (String, Option<RuntimeValue>)) -> BindingV {
    (b.0@, opt_value_view(b.1))
}

/// The model of one frame.
pub open spec fn frame_view(f: VariableMap) -> Seq<BindingV> {
    f@.map_values(|b: (String, Option<RuntimeValue>)| binding_view(b))
}

/// First-match lookup inside one frame: the stored (optional) value of the
/// earliest binding with the given name, or `None` if the frame has none.
pub open spec fn frame_lookup(frame: Seq<BindingV>, name: Seq<char>) -> Option<Option<ValueV>>
    decreases frame.len(),
{
    if frame.len() == 0 {
        None
    } else if frame[0].0 == name {
        Some(frame[0].1)
    } else {
        frame_lookup(frame.drop_first(), name)
    }
}

/// Lookup along the scope chain: the innermost frame that binds the name
/// answers with its stored value; an unbound name answers `None`.
pub open spec fn env_lookup(env: EnvV, name: Seq<char>) -> Option<ValueV>
    decreases env.len(),
{
    if env.len() == 0 {
        None
    } else {
        match frame_lookup(env.last(), name) {
            Some(stored) => stored,
            None => env_lookup(env.drop_last(), name),
        }
    }
}

/// Reassignment inside one frame: the earliest binding with the name is
/// removed and a binding with the new value is appended; a frame without the
/// name is left unchanged.
pub open spec fn frame_update(frame: Seq<BindingV>, name: Seq<char>, value: Option<ValueV>) -> Seq<
    BindingV,
>
    decreases frame.len(),
{
    if frame.len() == 0 {
        frame
    } else if frame[0].0 == name {
        frame.drop_first().push((name, value))
    } else {
        seq![frame[0]] + frame_update(frame.drop_first(), name, value)
    }
}

/// Declaring appends a binding to the innermost frame; duplicates are
/// allowed.
pub open spec fn env_declare(env: EnvV, name: Seq<char>, value: Option<ValueV>) -> EnvV {
    env.update(env.len() - 1, env.last().push((name, value)))
}

/// Assigning updates the innermost frame only; outer frames are never
/// touched, and an unbound name makes the assignment a silent no-op.
pub open spec fn env_assign(env: EnvV, name: Seq<char>, value: Option<ValueV>) -> EnvV {
    env.update(env.len() - 1, frame_update(env.last(), name, value))
}

/// A call pushes a fresh empty frame.
pub open spec fn env_push(env: EnvV) -> EnvV {
    env.push(Seq::empty())
}

/// Returning from a call pops the innermost frame.
pub open spec fn env_pop(env: EnvV) -> EnvV {
    env.drop_last()
}

/// The lexical scope chain, held as a stack of frames.
pub struct Environment {
    frames: Vec<VariableMap>,
}

impl View for Environment {
    type V = EnvV;

    closed spec fn view(&self) -> EnvV {
        self.frames@.map_values(|f: VariableMap| frame_view(f))
    }
}

impl Environment {
    /// A root environment: one empty frame, no outer scope.
    fn new() -> (r: Environment)
        ensures
            r@ == seq![Seq::<BindingV>::empty()],
    {
        let mut frames: Vec<VariableMap> = Vec::new();
        frames.push(Vec::new());
        let r = Environment { frames };
        proof {
            assert(r@ =~~= seq![Seq::<BindingV>::empty()]);
        }
        r
    }

    /// Lookup along the scope chain, innermost frame first; inside a frame
    /// the earliest binding wins and its stored value is answered even when
    /// that value is absent.
    pub fn get_variable(&self, name: String) -> (r: Option<RuntimeValue>)
        ensures
            opt_value_view(r) == env_lookup(self@, name@),
    {
        let ghost env = self@;
        let mut fi = self.frames.len();
        proof {
            assert(env.take(env.len() as int) =~= env);
        }
        while fi > 0
            invariant
                env == self@,
                fi <= self.frames@.len(),
                env.len() == self.frames@.len(),
                env_lookup(env, name@) == env_lookup(env.take(fi as int), name@),
            decreases fi,
        {
            fi = fi - 1;
            let ghost frame = env[fi as int];
            let mut j: usize = 0;
            proof {
                assert(frame == frame_view(self.frames@[fi as int]));
                assert(frame.skip(0) =~= frame);
                assert(env.take(fi as int + 1).last() == frame);
                assert(env.take(fi as int + 1).drop_last() =~= env.take(fi as int));
            }
            while j < self.frames[fi].len()
                invariant
                    env == self@,
                    fi < self.frames@.len(),
                    env.len() == self.frames@.len(),
                    frame == env[fi as int],
                    frame == frame_view(self.frames@[fi as int]),
                    frame.len() == self.frames@[fi as int]@.len(),
                    j <= frame.len(),
                    frame_lookup(frame.skip(j as int), name@) == frame_lookup(frame, name@),
                    env_lookup(env, name@) == env_lookup(env.take(fi as int + 1), name@),
                    env.take(fi as int + 1).last() == frame,
                    env.take(fi as int + 1).drop_last() == env.take(fi as int),
                decreases frame.len() - j,
            {
                let b = &self.frames[fi][j];
                proof {
                    assert(frame[j as int] == binding_view(self.frames@[fi as int]@[j as int]));
                }
                if b.0 == name {
                    proof {
                        assert(frame_lookup(frame.skip(j as int), name@) == Some(frame[j as int].1));
                    }
                    return match &b.1 {
                        None => None,
                        Some(v) => Some(v.clone()),
                    };
                }
                proof {
                    assert(frame.skip(j as int).drop_first() =~= frame.skip(j as int + 1));
                }
                j = j + 1;
            }
            proof {
                assert(frame.skip(frame.len() as int).len() == 0);
                assert(frame_lookup(frame, name@) is None);
            }
        }
        proof {
            assert(env.take(0).len() == 0);
        }
        None
    }

    /// Appends a binding to the innermost frame; duplicates are allowed and
    /// no uniqueness check is made.
    fn add_variable(&mut self, name: String, value: Option<RuntimeValue>)
        requires
            old(self)@.len() >= 1,
        ensures
            final(self)@ == env_declare(old(self)@, name@, opt_value_view(value)),
    {
        let ghost old_env = old(self)@;
        let ghost b = binding_view((name, value));
        let mut top = match self.frames.pop() {
            Some(t) => t,
            None => {
                proof {
                    assert(false);
                }
                Vec::new()
            },
        };
        proof {
            assert(old_env.last() == frame_view(top));
        }
        top.push((name, value));
        self.frames.push(top);
        proof {
            assert(frame_view(top) =~= old_env.last().push(b));
            assert(final(self)@ =~~= env_declare(old_env, b.0, b.1));
        }
    }

    /// Reassigns inside the innermost frame only: the earliest binding with
    /// the name is removed and the new value appended at the end; an unbound
    /// name makes this a silent no-op.
    fn update_variable(&mut self, name: String, value: Option<RuntimeValue>)
        requires
            old(self)@.len() >= 1,
        ensures
            final(self)@ == env_assign(old(self)@, name@, opt_value_view(value)),
    {
        let ghost old_env = old(self)@;
        let ghost b = binding_view((name, value));
        let mut top = match self.frames.pop() {
            Some(t) => t,
            None => {
                proof {
                    assert(false);
                }
                Vec::new()
            },
        };
        let ghost frame = old_env.last();
        proof {
            assert(frame == frame_view(top));
            assert(frame.skip(0) =~= frame);
        }
        let mut j: usize = 0;
        let mut idx: Option<usize> = None;
        while j < top.len()
            invariant_except_break
                idx is None,
            invariant
                frame == frame_view(top),
                frame.len() == top@.len(),
                j <= frame.len(),
                forall|k: int| 0 <= k < j ==> #[trigger] frame[k].0 != name@,
            ensures
                match idx {
                    Some(i) => i < frame.len() && frame[i as int].0 == name@ && (forall|k: int|
                        0 <= k < i ==> #[trigger] frame[k].0 != name@),
                    None => forall|k: int| 0 <= k < frame.len() ==> #[trigger] frame[k].0 != name@,
                },
            decreases frame.len() - j,
        {
            proof {
                assert(frame[j as int] == binding_view(top@[j as int]));
            }
            if top[j].0 == name {
                idx = Some(j);
                break ;
            }
            j = j + 1;
        }
        match idx {
            Some(i) => {
                proof {
                    lemma_frame_update_at(frame, name@, b.1, i as int);
                }
                top.remove(i);
                top.push((name, value));
                proof {
                    assert(frame_view(top) =~= frame.remove(i as int).push(b));
                }
            },
            None => {
                proof {
                    lemma_frame_update_absent(frame, name@, b.1);
                }
            },
        }
        self.frames.push(top);
        proof {
            assert(frame_view(top) == frame_update(frame, name@, b.1));
            assert(final(self)@ =~~= env_assign(old_env, b.0, b.1));
        }
    }

    /// Pushes a fresh, empty innermost frame.
    fn push_frame(&mut self)
        ensures
            final(self)@ == env_push(old(self)@),
    {
        self.frames.push(Vec::new());
        proof {
            assert(final(self)@ =~~= env_push(old(self)@));
        }
    }

    /// Pops the innermost frame.
    fn pop_frame(&mut self)
        requires
            old(self)@.len() >= 1,
        ensures
            final(self)@ == env_pop(old(self)@),
    {
        let _ = self.frames.pop();
        proof {
            assert(final(self)@ =~~= env_pop(old(self)@));
        }
    }
}

/// Reassignment with the earliest match at index `i` removes that binding
/// and appends the new one.
proof fn lemma_frame_update_at(frame: Seq<BindingV>, name: Seq<char>, value: Option<ValueV>, i: int)
    requires
        0 <= i < frame.len(),
        frame[i].0 == name,
        forall|k: int| 0 <= k < i ==> #[trigger] frame[k].0 != name,
    ensures
        frame_update(frame, name, value) == frame.remove(i).push((name, value)),
    decreases i,
{
    if i == 0 {
        assert(frame.drop_first() =~= frame.remove(0));
    } else {
        lemma_frame_update_at(frame.drop_first(), name, value, i - 1);
        assert(seq![frame[0]] + frame.drop_first().remove(i - 1) =~= frame.remove(i));
        assert(seq![frame[0]] + frame.drop_first().remove(i - 1).push((name, value)) =~= (seq![
            frame[0],
        ] + frame.drop_first().remove(i - 1)).push((name, value)));
    }
}

/// A frame without the name is left unchanged by reassignment.
proof fn lemma_frame_update_absent(frame: Seq<BindingV>, name: Seq<char>, value: Option<ValueV>)
    requires
        forall|k: int| 0 <= k < frame.len() ==> #[trigger] frame[k].0 != name,
    ensures
        frame_update(frame, name, value) == frame,
    decreases frame.len(),
{
    if frame.len() > 0 {
        lemma_frame_update_absent(frame.drop_first(), name, value);
        assert(seq![frame[0]] + frame.drop_first() =~= frame);
    }
}

} // verus!

verus! {

/// A user-declared function: its name, parameter nodes and body.
pub struct Function {
    id: String,
    params: Vec<Option<Rc<Node>>>,
    body: Option<Rc<Node>>,
}

/// Mathematical model of a [`Function`].
pub struct FunctionV {
    pub id: Seq<char>,
    pub params: Seq<Option<Rc<Node>>>,
    pub body: Option<Rc<Node>>,
}

impl View for Function {
    type V = FunctionV;

    closed spec fn view(&self) -> FunctionV {
        FunctionV { id: self.id@, params: self.params@, body: self.body }
    }
}

impl Function {
    fn new(id: String, params: Vec<Option<Rc<Node>>>, body: Option<Rc<Node>>) -> (r: Function)
        ensures
            r@ == (FunctionV { id: id@, params: params@, body }),
    {
        Function { id, params, body }
    }
}

/// The models of the function table, in declaration order.
pub open spec fn fn_views(fns: Seq<Function>) -> Seq<FunctionV> {
    fns.map_values(|f: Function| f@)
}

/// First match by name in the function table.
pub open spec fn find_function(funcs: Seq<FunctionV>, name: Seq<char>) -> Option<FunctionV>
    decreases funcs.len(),
{
    if funcs.len() == 0 {
        None
    } else if funcs[0].id == name {
        Some(funcs[0])
    } else {
        find_function(funcs.drop_first(), name)
    }
}

/// The fatal conditions: they halt the whole run immediately.
#[derive(Debug, Clone, Copy, PartialEq, Eq, Structural)]
pub enum EvalError {
    /// Recursion ran deeper than the evaluation budget allows.
    DepthExceeded,
    /// A call named a function that is neither a browser API nor declared.
    FunctionNotFound,
    /// A call handed a function the wrong number of arguments.
    ArgumentCountMismatch,
}

/// Mathematical model of the whole interpreter state: the DOM arena, the
/// scope stack and the function table.
pub struct StateV {
    pub dom: Seq<crate::dom::NodeV>,
    pub env: EnvV,
    pub functions: Seq<FunctionV>,
}

/// The model of an evaluation result.
pub open spec fn res_view(r: Result<Option<RuntimeValue>, EvalError>) -> Result<
    Option<ValueV>,
    EvalError,
> {
    match r {
        Ok(v) => Ok(opt_value_view(v)),
        Err(e) => Err(e),
    }
}

/// The `textContent` mutation, applied only to a valid handle while the
/// arena has room; otherwise the DOM is unchanged.
pub open spec fn apply_text_mutation(
    dom: Seq<crate::dom::NodeV>,
    object: usize,
    text: Seq<char>,
) -> Seq<crate::dom::NodeV> {
    if (object as int) < dom.len() && dom.len() < usize::MAX {
        spec_set_text_content(dom, object as int, text)
    } else {
        dom
    }
}

/// The evaluation budget each top-level statement starts with.
pub const EVAL_FUEL: u64 = 1048576;

/// The identifier name a node holds, if it is an identifier node.
pub open spec fn ident_name_of(n: Option<Rc<Node>>) -> Option<Seq<char>> {
    match n {
        Some(l) => match *l {
            Node::Identifier(id) => Some(id@),
            _ => None,
        },
        None => None,
    }
}

/// The evaluator, as a function from state and node to state and result.
/// Every recursive step spends one unit of fuel; a run that would recurse
/// deeper than the budget ends in [`EvalError::DepthExceeded`].
pub open spec fn eval_spec(st: StateV, node: Option<Rc<Node>>, fuel: u64) -> (StateV, Result<
    Option<ValueV>,
    EvalError,
>)
    decreases fuel, 1int, 0int,
{
    if node is None {
        (st, Ok(None))
    } else if fuel == 0 {
        (st, Err(EvalError::DepthExceeded))
    } else {
        let f = (fuel - 1) as u64;
        match *node->Some_0 {
            Node::ExpressionStatement(expr) => eval_spec(st, expr, f),
            Node::AdditiveExpression { operator, left, right } => {
                let (st1, lr) = eval_spec(st, left, f);
                match lr {
                    Err(e) => (st1, Err(e)),
                    Ok(None) => (st1, Ok(None)),
                    Ok(Some(lv)) => {
                        let (st2, rr) = eval_spec(st1, right, f);
                        match rr {
                            Err(e) => (st2, Err(e)),
                            Ok(None) => (st2, Ok(None)),
                            Ok(Some(rv)) => (
                                st2,
                                Ok(
                                    if operator == '+' {
                                        Some(spec_add(lv, rv))
                                    } else if operator == '-' {
                                        Some(spec_sub(lv, rv))
                                    } else {
                                        None
                                    },
                                ),
                            ),
                        }
                    },
                }
            },
            Node::AssignmentExpression { operator, left, right } => {
                if operator != '=' {
                    (st, Ok(None))
                } else if ident_name_of(left) is Some {
                    let (st1, rr) = eval_spec(st, right, f);
                    match rr {
                        Err(e) => (st1, Err(e)),
                        Ok(new_value) => (
                            StateV {
                                env: env_assign(st1.env, ident_name_of(left)->Some_0, new_value),
                                ..st1
                            },
                            Ok(None),
                        ),
                    }
                } else {
                    let (st1, lr) = eval_spec(st, left, f);
                    match lr {
                        Err(e) => (st1, Err(e)),
                        Ok(Some(ValueV::HtmlElement { object, property })) => {
                            let (st2, rr) = eval_spec(st1, right, f);
                            match rr {
                                Err(e) => (st2, Err(e)),
                                Ok(None) => (st2, Ok(None)),
                                Ok(Some(rv)) => {
                                    if property == Some("textContent"@) {
                                        (
                                            StateV {
                                                dom: apply_text_mutation(
                                                    st2.dom,
                                                    object,
                                                    display_of(rv),
                                                ),
                                                ..st2
                                            },
                                            Ok(None),
                                        )
                                    } else {
                                        (st2, Ok(None))
                                    }
                                },
                            }
                        },
                        Ok(_) => (st1, Ok(None)),
                    }
                }
            },
            Node::MemberExpression { object, property } => {
                let (st1, or) = eval_spec(st, object, f);
                match or {
                    Err(e) => (st1, Err(e)),
                    Ok(None) => (st1, Ok(None)),
                    Ok(Some(ov)) => {
                        let (st2, pr) = eval_spec(st1, property, f);
                        match pr {
                            Err(e) => (st2, Err(e)),
                            Ok(None) => (st2, Ok(Some(ov))),
                            Ok(Some(pv)) => {
                                if ov matches ValueV::HtmlElement { object: obj, property: None } {
                                    (
                                        st2,
                                        Ok(
                                            Some(
                                                ValueV::HtmlElement {
                                                    object: ov->HtmlElement_object,
                                                    property: Some(display_of(pv)),
                                                },
                                            ),
                                        ),
                                    )
                                } else {
                                    (
                                        st2,
                                        Ok(
                                            Some(
                                                spec_add(
                                                    spec_add(ov, ValueV::StringLiteral("."@)),
                                                    pv,
                                                ),
                                            ),
                                        ),
                                    )
                                }
                            },
                        }
                    },
                }
            },
            Node::NumericLiteral(value) => (st, Ok(Some(ValueV::Number(value)))),
            Node::StringLiteral(value) => (st, Ok(Some(ValueV::StringLiteral(value@)))),
            Node::Identifier(name) => (
                st,
                Ok(
                    Some(
                        match env_lookup(st.env, name@) {
                            Some(v) => v,
                            None => ValueV::StringLiteral(name@),
                        },
                    ),
                ),
            ),
            Node::VariableDeclaration { declarations } => {
                let (st1, r) = eval_decls_spec(st, declarations@, 0, fuel);
                match r {
                    Err(e) => (st1, Err(e)),
                    Ok(()) => (st1, Ok(None)),
                }
            },
            Node::VariableDeclarator { id, init } => {
                if ident_name_of(id) is Some {
                    let (st1, ir) = eval_spec(st, init, f);
                    match ir {
                        Err(e) => (st1, Err(e)),
                        Ok(iv) => (
                            StateV {
                                env: env_declare(st1.env, ident_name_of(id)->Some_0, iv),
                                ..st1
                            },
                            Ok(None),
                        ),
                    }
                } else {
                    (st, Ok(None))
                }
            },
            Node::CallExpression { callee, arguments } => {
                let st0 = StateV { env: env_push(st.env), ..st };
                let (st1, cr) = eval_spec(st0, callee, f);
                match cr {
                    Err(e) => (StateV { env: env_pop(st1.env), ..st1 }, Err(e)),
                    Ok(None) => (StateV { env: env_pop(st1.env), ..st1 }, Ok(None)),
                    Ok(Some(cv)) => {
                        if cv == ValueV::StringLiteral("document.getElementById"@) {
                            if arguments@.len() == 0 {
                                (
                                    StateV { env: env_pop(st1.env), ..st1 },
                                    Err(EvalError::ArgumentCountMismatch),
                                )
                            } else {
                                let (st2, ar) = eval_spec(st1, arguments@[0], f);
                                match ar {
                                    Err(e) => (StateV { env: env_pop(st2.env), ..st2 }, Err(e)),
                                    Ok(None) => (StateV { env: env_pop(st2.env), ..st2 }, Ok(None)),
                                    Ok(Some(av)) => {
                                        let found = spec_find_by_id(
                                            st2.dom,
                                            Some(0usize),
                                            display_of(av),
                                        );
                                        (
                                            StateV { env: env_pop(st2.env), ..st2 },
                                            Ok(
                                                match found {
                                                    Some(nid) => Some(
                                                        ValueV::HtmlElement {
                                                            object: nid,
                                                            property: None,
                                                        },
                                                    ),
                                                    None => None,
                                                },
                                            ),
                                        )
                                    },
                                }
                            }
                        } else {
                            let fun = match cv {
                                ValueV::StringLiteral(n) => find_function(st1.functions, n),
                                _ => None,
                            };
                            match fun {
                                None => (
                                    StateV { env: env_pop(st1.env), ..st1 },
                                    Err(EvalError::FunctionNotFound),
                                ),
                                Some(func) => {
                                    if arguments@.len() != func.params.len() {
                                        (
                                            StateV { env: env_pop(st1.env), ..st1 },
                                            Err(EvalError::ArgumentCountMismatch),
                                        )
                                    } else {
                                        let (st2, br) = bind_args_spec(
                                            st1,
                                            func.params,
                                            arguments@,
                                            0,
                                            fuel,
                                        );
                                        match br {
                                            Err(e) => (
                                                StateV { env: env_pop(st2.env), ..st2 },
                                                Err(e),
                                            ),
                                            Ok(()) => {
                                                let (st3, r) = eval_spec(st2, func.body, f);
                                                (StateV { env: env_pop(st3.env), ..st3 }, r)
                                            },
                                        }
                                    }
                                },
                            }
                        }
                    },
                }
            },
            Node::BlockStatement { body } => eval_block_spec(st, body@, 0, fuel, None),
            Node::ReturnStatement { argument } => eval_spec(st, argument, f),
            Node::FunctionDeclaration { id, params, body } => {
                let (st1, ir) = eval_spec(st, id, f);
                match ir {
                    Err(e) => (st1, Err(e)),
                    Ok(Some(ValueV::StringLiteral(n))) => (
                        StateV {
                            functions: st1.functions.push(
                                FunctionV { id: n, params: params@, body },
                            ),
                            ..st1
                        },
                        Ok(None),
                    ),
                    Ok(_) => (st1, Ok(None)),
                }
            },
        }
    }
}

/// Evaluates the declarators of a `var` statement in order, discarding
/// results.
pub open spec fn eval_decls_spec(
    st: StateV,
    decls: Seq<Option<Rc<Node>>>,
    i: int,
    fuel: u64,
) -> (StateV, Result<(), EvalError>)
    decreases fuel, 0int, decls.len() - i,
{
    if fuel == 0 {
        (st, Err(EvalError::DepthExceeded))
    } else if i < 0 || i >= decls.len() {
        (st, Ok(()))
    } else {
        let (st1, r) = eval_spec(st, decls[i], (fuel - 1) as u64);
        match r {
            Err(e) => (st1, Err(e)),
            Ok(_) => eval_decls_spec(st1, decls, i + 1, fuel),
        }
    }
}

/// Evaluates the statements of a block in order, in the same scope, keeping
/// the last statement's result.
pub open spec fn eval_block_spec(
    st: StateV,
    stmts: Seq<Option<Rc<Node>>>,
    i: int,
    fuel: u64,
    last: Option<ValueV>,
) -> (StateV, Result<Option<ValueV>, EvalError>)
    decreases fuel, 0int, stmts.len() - i,
{
    if fuel == 0 {
        (st, Err(EvalError::DepthExceeded))
    } else if i < 0 || i >= stmts.len() {
        (st, Ok(last))
    } else {
        let (st1, r) = eval_spec(st, stmts[i], (fuel - 1) as u64);
        match r {
            Err(e) => (st1, Err(e)),
            Ok(v) => eval_block_spec(st1, stmts, i + 1, fuel, v),
        }
    }
}

/// Binds call arguments in the fresh call scope: each parameter node is
/// evaluated there (an unbound identifier yields its own name), and when it
/// yields a string, the matching argument is evaluated and bound under it.
pub open spec fn bind_args_spec(
    st: StateV,
    params: Seq<Option<Rc<Node>>>,
    args: Seq<Option<Rc<Node>>>,
    i: int,
    fuel: u64,
) -> (StateV, Result<(), EvalError>)
    decreases fuel, 0int, params.len() - i,
{
    if fuel == 0 {
        (st, Err(EvalError::DepthExceeded))
    } else if i < 0 || i >= params.len() {
        (st, Ok(()))
    } else {
        let (st1, pr) = eval_spec(st, params[i], (fuel - 1) as u64);
        match pr {
            Err(e) => (st1, Err(e)),
            Ok(Some(ValueV::StringLiteral(n))) => {
                let (st2, ar) = eval_spec(st1, args[i], (fuel - 1) as u64);
                match ar {
                    Err(e) => (st2, Err(e)),
                    Ok(av) => bind_args_spec(
                        StateV { env: env_declare(st2.env, n, av), ..st2 },
                        params,
                        args,
                        i + 1,
                        fuel,
                    ),
                }
            },
            Ok(_) => bind_args_spec(st1, params, args, i + 1, fuel),
        }
    }
}

/// Runs the top-level statements in order against the root scope, each with
/// a fresh evaluation budget, discarding results; the first fatal condition
/// stops the run.
pub open spec fn execute_spec(st: StateV, body: Seq<Rc<Node>>, i: int) -> (StateV, Result<
    (),
    EvalError,
>)
    decreases body.len() - i,
{
    if i < 0 || i >= body.len() {
        (st, Ok(()))
    } else {
        let (st1, r) = eval_spec(st, Some(body[i]), EVAL_FUEL);
        match r {
            Err(e) => (st1, Err(e)),
            Ok(_) => execute_spec(st1, body, i + 1),
        }
    }
}

} // verus!

verus! {

/// Clones an optional AST handle; handles share the node, so the value is
/// unchanged.
fn clone_opt_node(n: &Option<Rc<Node>>) -> (r: Option<Rc<Node>>)
    ensures
        r == *n,
{
    match n {
        None => None,
        Some(rc) => Some(rc.clone()),
    }
}

/// Clones a list of optional AST handles.
fn clone_opt_nodes(v: &Vec<Option<Rc<Node>>>) -> (r: Vec<Option<Rc<Node>>>)
    ensures
        r@ == v@,
{
    let mut out: Vec<Option<Rc<Node>>> = Vec::new();
    let mut i: usize = 0;
    while i < v.len()
        invariant
            i <= v@.len(),
            out@ =~= v@.take(i as int),
        decreases v@.len() - i,
    {
        out.push(clone_opt_node(&v[i]));
        i = i + 1;
    }
    proof {
        assert(out@ =~= v@);
    }
    out
}

/// The interpreter: a DOM window, the scope stack rooted at the global
/// scope, and the flat function table.
pub struct JsRuntime {
    dom: Window,
    env: Environment,
    functions: Vec<Function>,
}

impl View for JsRuntime {
    type V = StateV;

    closed spec fn view(&self) -> StateV {
        StateV { dom: self.dom@, env: self.env@, functions: fn_views(self.functions@) }
    }
}

impl JsRuntime {
    /// A healthy runtime: a well-formed DOM window and at least the root
    /// scope frame.
    pub open spec fn wf(&self) -> bool {
        crate::dom::window_wf(self@.dom) && self@.env.len() >= 1
    }

    /// A fresh runtime over the given window, with an empty root scope and
    /// no declared functions.
    pub fn new(window: Window) -> (r: JsRuntime)
        requires
            window.wf(),
        ensures
            r.wf(),
            r@.dom == window@,
            r@.env == seq![Seq::<BindingV>::empty()],
            r@.functions == Seq::<FunctionV>::empty(),
    {
        let r = JsRuntime { dom: window, env: Environment::new(), functions: Vec::new() };
        proof {
            assert(fn_views(r.functions@) =~= Seq::<FunctionV>::empty());
        }
        r
    }

    /// Read access to the root scope chain.
    pub fn env(&self) -> (r: &Environment)
        ensures
            r@ == self@.env,
    {
        &self.env
    }

    /// Read access to the window.
    pub fn window(&self) -> (r: &Window)
        ensures
            r@ == self@.dom,
    {
        &self.dom
    }

    /// The first declared function with the given name.
    fn find_function_idx(&self, name: &String) -> (r: Option<usize>)
        ensures
            match r {
                Some(k) => k < self@.functions.len() && find_function(self@.functions, name@)
                    == Some(self@.functions[k as int]),
                None => find_function(self@.functions, name@) is None,
            },
    {
        let ghost funcs = self@.functions;
        let mut k: usize = 0;
        proof {
            assert(funcs.skip(0) =~= funcs);
        }
        while k < self.functions.len()
            invariant
                funcs == self@.functions,
                funcs.len() == self.functions@.len(),
                k <= funcs.len(),
                find_function(funcs.skip(k as int), name@) == find_function(funcs, name@),
            decreases funcs.len() - k,
        {
            proof {
                assert(funcs[k as int] == self.functions@[k as int]@);
            }
            if self.functions[k].id == *name {
                return Some(k);
            }
            proof {
                assert(funcs.skip(k as int).drop_first() =~= funcs.skip(k as int + 1));
            }
            k = k + 1;
        }
        proof {
            assert(funcs.skip(funcs.len() as int).len() == 0);
        }
        None
    }

    /// Evaluates one node against the innermost scope; `fuel` bounds the
    /// recursion depth.  The result and every state change agree exactly
    /// with [`eval_spec`].
    #[verifier::rlimit(100)]
    #[verifier::spinoff_prover]
    pub fn eval(&mut self, node: &Option<Rc<Node>>, fuel: u64) -> (r: Result<
        Option<RuntimeValue>,
        EvalError,
    >)
        requires
            old(self).wf(),
        ensures
            final(self).wf(),
            final(self)@.env.len() == old(self)@.env.len(),
            ({
                let (st, res) = eval_spec(old(self)@, *node, fuel);
                final(self)@ == st && res_view(r) == res
            }),
        decreases fuel, 1int, 0int,
    {
        let n = match node {
            Some(n) => n,
            None => {
                return Ok(None);
            },
        };
        if fuel == 0 {
            return Err(EvalError::DepthExceeded);
        }
        let f = fuel - 1;
        match &**n {
            Node::ExpressionStatement(expr) => self.eval(expr, f),
            Node::AdditiveExpression { operator, left, right } => {
                let lv = match self.eval(left, f) {
                    Err(e) => {
                        return Err(e);
                    },
                    Ok(None) => {
                        return Ok(None);
                    },
                    Ok(Some(v)) => v,
                };
                let rv = match self.eval(right, f) {
                    Err(e) => {
                        return Err(e);
                    },
                    Ok(None) => {
                        return Ok(None);
                    },
                    Ok(Some(v)) => v,
                };
                if *operator == '+' {
                    Ok(Some(lv.add(rv)))
                } else if *operator == '-' {
                    Ok(Some(lv.sub(rv)))
                } else {
                    Ok(None)
                }
            },
            Node::AssignmentExpression { operator, left, right } => {
                if *operator != '=' {
                    return Ok(None);
                }
                let ident: Option<&String> = match left {
                    Some(l) => match &**l {
                        Node::Identifier(id) => Some(id),
                        _ => None,
                    },
                    None => None,
                };
                match ident {
                    Some(id) => {
                        let new_value = match self.eval(right, f) {
                            Err(e) => {
                                return Err(e);
                            },
                            Ok(v) => v,
                        };
                        self.env.update_variable(id.clone(), new_value);
                        Ok(None)
                    },
                    None => {
                        match self.eval(left, f) {
                            Err(e) => Err(e),
                            Ok(Some(RuntimeValue::HtmlElement { object, property })) => {
                                let rv = match self.eval(right, f) {
                                    Err(e) => {
                                        return Err(e);
                                    },
                                    Ok(None) => {
                                        return Ok(None);
                                    },
                                    Ok(Some(v)) => v,
                                };
                                let is_text_content = match &property {
                                    Some(p) => crate::dom::str_eq(p.as_str(), "textContent"),
                                    None => false,
                                };
                                if is_text_content {
                                    let count = self.dom.node_count();
                                    if object < count && count < usize::MAX {
                                        let _ = self.dom.set_text_content(object, rv.to_string());
                                    }
                                }
                                Ok(None)
                            },
                            Ok(_) => Ok(None),
                        }
                    },
                }
            },
            Node::MemberExpression { object, property } => {
                let ov = match self.eval(object, f) {
                    Err(e) => {
                        return Err(e);
                    },
                    Ok(None) => {
                        return Ok(None);
                    },
                    Ok(Some(v)) => v,
                };
                let pv = match self.eval(property, f) {
                    Err(e) => {
                        return Err(e);
                    },
                    Ok(None) => {
                        return Ok(Some(ov));
                    },
                    Ok(Some(v)) => v,
                };
                match ov {
                    RuntimeValue::HtmlElement { object: obj, property: None } => Ok(
                        Some(
                            RuntimeValue::HtmlElement { object: obj, property: Some(pv.to_string()) },
                        ),
                    ),
                    other => Ok(
                        Some(other.add(RuntimeValue::StringLiteral(String::from_str("."))).add(pv)),
                    ),
                }
            },
            Node::NumericLiteral(value) => Ok(Some(RuntimeValue::Number(*value))),
            Node::StringLiteral(value) => Ok(Some(RuntimeValue::StringLiteral(value.clone()))),
            Node::Identifier(name) => {
                match self.env.get_variable(name.clone()) {
                    Some(v) => Ok(Some(v)),
                    None => Ok(Some(RuntimeValue::StringLiteral(name.clone()))),
                }
            },
            Node::VariableDeclaration { declarations } => {
                match self.eval_decls(declarations, 0, fuel) {
                    Err(e) => Err(e),
                    Ok(()) => Ok(None),
                }
            },
            Node::VariableDeclarator { id, init } => {
                let ident: Option<&String> = match id {
                    Some(l) => match &**l {
                        Node::Identifier(name) => Some(name),
                        _ => None,
                    },
                    None => None,
                };
                match ident {
                    Some(name) => {
                        let iv = match self.eval(init, f) {
                            Err(e) => {
                                return Err(e);
                            },
                            Ok(v) => v,
                        };
                        self.env.add_variable(name.clone(), iv);
                        Ok(None)
                    },
                    None => Ok(None),
                }
            },
            Node::CallExpression { callee, arguments } => {
                self.env.push_frame();
                let cv = match self.eval(callee, f) {
                    Err(e) => {
                        self.env.pop_frame();
                        return Err(e);
                    },
                    Ok(None) => {
                        self.env.pop_frame();
                        return Ok(None);
                    },
                    Ok(Some(v)) => v,
                };
                // The browser-API bridge: a closed dispatch table checked
                // before user-function lookup on every call.
                let is_api = match &cv {
                    RuntimeValue::StringLiteral(s) => crate::dom::str_eq(
                        s.as_str(),
                        "document.getElementById",
                    ),
                    _ => false,
                };
                if is_api {
                    if arguments.len() == 0 {
                        self.env.pop_frame();
                        return Err(EvalError::ArgumentCountMismatch);
                    }
                    let av = match self.eval(&arguments[0], f) {
                        Err(e) => {
                            self.env.pop_frame();
                            return Err(e);
                        },
                        Ok(None) => {
                            self.env.pop_frame();
                            return Ok(None);
                        },
                        Ok(Some(v)) => v,
                    };
                    let arg_string = av.to_string();
                    let root = self.dom.document();
                    let found = self.dom.get_element_by_id(Some(root), &arg_string);
                    self.env.pop_frame();
                    return Ok(
                        match found {
                            Some(nid) => Some(
                                RuntimeValue::HtmlElement { object: nid, property: None },
                            ),
                            None => None,
                        },
                    );
                }
                let idx = match &cv {
                    RuntimeValue::StringLiteral(s) => self.find_function_idx(s),
                    _ => None,
                };
                let k = match idx {
                    Some(k) => k,
                    None => {
                        self.env.pop_frame();
                        return Err(EvalError::FunctionNotFound);
                    },
                };
                let params = clone_opt_nodes(&self.functions[k].params);
                let body = clone_opt_node(&self.functions[k].body);
                if arguments.len() != params.len() {
                    self.env.pop_frame();
                    return Err(EvalError::ArgumentCountMismatch);
                }
                match self.bind_args(&params, arguments, 0, fuel) {
                    Err(e) => {
                        self.env.pop_frame();
                        Err(e)
                    },
                    Ok(()) => {
                        let r = self.eval(&body, f);
                        self.env.pop_frame();
                        r
                    },
                }
            },
            Node::BlockStatement { body } => self.eval_block(body, 0, fuel, None),
            Node::ReturnStatement { argument } => self.eval(argument, f),
            Node::FunctionDeclaration { id, params, body } => {
                match self.eval(id, f) {
                    Err(e) => Err(e),
                    Ok(Some(RuntimeValue::StringLiteral(n))) => {
                        let ps = clone_opt_nodes(params);
                        let b = clone_opt_node(body);
                        let ghost pre = self@.functions;
                        self.functions.push(Function::new(n, ps, b));
                        proof {
                            assert(self@.functions =~= pre.push(
                                FunctionV { id: n@, params: params@, body: *body },
                            ));
                        }
                        Ok(None)
                    },
                    Ok(_) => Ok(None),
                }
            },
        }
    }

    /// Evaluates the declarators of a `var` statement in order.
    fn eval_decls(&mut self, decls: &Vec<Option<Rc<Node>>>, i: usize, fuel: u64) -> (r: Result<
        (),
        EvalError,
    >)
        requires
            old(self).wf(),
            fuel >= 1,
        ensures
            final(self).wf(),
            final(self)@.env.len() == old(self)@.env.len(),
            ({
                let (st, res) = eval_decls_spec(old(self)@, decls@, i as int, fuel);
                final(self)@ == st && (r matches Ok(()) ==> res == Ok::<(), EvalError>(())) && (
                r matches Err(e) ==> res == Err::<(), EvalError>(e))
            }),
        decreases fuel, 0int, decls@.len() - i,
    {
        if i >= decls.len() {
            return Ok(());
        }
        match self.eval(&decls[i], fuel - 1) {
            Err(e) => Err(e),
            Ok(_) => self.eval_decls(decls, i + 1, fuel),
        }
    }

    /// Evaluates the statements of a block in order, in the same scope,
    /// keeping the last statement's result.
    fn eval_block(
        &mut self,
        stmts: &Vec<Option<Rc<Node>>>,
        i: usize,
        fuel: u64,
        last: Option<RuntimeValue>,
    ) -> (r: Result<Option<RuntimeValue>, EvalError>)
        requires
            old(self).wf(),
            fuel >= 1,
        ensures
            final(self).wf(),
            final(self)@.env.len() == old(self)@.env.len(),
            ({
                let (st, res) = eval_block_spec(
                    old(self)@,
                    stmts@,
                    i as int,
                    fuel,
                    opt_value_view(last),
                );
                final(self)@ == st && res_view(r) == res
            }),
        decreases fuel, 0int, stmts@.len() - i,
    {
        if i >= stmts.len() {
            return Ok(last);
        }
        match self.eval(&stmts[i], fuel - 1) {
            Err(e) => Err(e),
            Ok(v) => self.eval_block(stmts, i + 1, fuel, v),
        }
    }

    /// Binds call arguments in the fresh call scope.
    fn bind_args(
        &mut self,
        params: &Vec<Option<Rc<Node>>>,
        args: &Vec<Option<Rc<Node>>>,
        i: usize,
        fuel: u64,
    ) -> (r: Result<(), EvalError>)
        requires
            old(self).wf(),
            fuel >= 1,
            args@.len() == params@.len(),
        ensures
            final(self).wf(),
            final(self)@.env.len() == old(self)@.env.len(),
            ({
                let (st, res) = bind_args_spec(old(self)@, params@, args@, i as int, fuel);
                final(self)@ == st && (r matches Ok(()) ==> res == Ok::<(), EvalError>(())) && (
                r matches Err(e) ==> res == Err::<(), EvalError>(e))
            }),
        decreases fuel, 0int, params@.len() - i,
    {
        if i >= params.len() {
            return Ok(());
        }
        match self.eval(&params[i], fuel - 1) {
            Err(e) => Err(e),
            Ok(Some(RuntimeValue::StringLiteral(n))) => {
                match self.eval(&args[i], fuel - 1) {
                    Err(e) => Err(e),
                    Ok(av) => {
                        self.env.add_variable(n, av);
                        self.bind_args(params, args, i + 1, fuel)
                    },
                }
            },
            Ok(_) => self.bind_args(params, args, i + 1, fuel),
        }
    }

    /// Runs the program's top-level statements in order against the root
    /// scope, discarding results; the first fatal condition stops the run
    /// and is reported.
    pub fn execute(&mut self, program: &Program) -> (r: Result<(), EvalError>)
        requires
            old(self).wf(),
        ensures
            final(self).wf(),
            ({
                let (st, res) = execute_spec(old(self)@, program.body_view(), 0);
                final(self)@ == st && r == res
            }),
    {
        let ghost body = program.body_view();
        let mut i: usize = 0;
        while i < program.body().len()
            invariant
                self.wf(),
                body == program.body_view(),
                i <= body.len(),
                execute_spec(old(self)@, body, 0) == execute_spec(self@, body, i as int),
            decreases body.len() - i,
        {
            let node = Some(program.body()[i].clone());
            match self.eval(&node, EVAL_FUEL) {
                Err(e) => {
                    return Err(e);
                },
                Ok(_) => {},
            }
            i = i + 1;
        }
        Ok(())
    }
}

} // verus!

verus! {

/// Popping the frame a call pushed restores the scope stack exactly, so a
/// balanced call leaves every outer binding untouched.
pub proof fn lemma_push_pop(env: EnvV)
    ensures
        env_pop(env_push(env)) == env,
{
    assert(env_pop(env_push(env)) =~= env);
}

/// A value declared in an outer scope and never reassigned is returned
/// unchanged by lookup, no matter how many call scopes stand above it, as
/// long as none of them binds the same name.
pub proof fn lemma_outer_lookup_stable(env: EnvV, inner: Seq<Seq<BindingV>>, name: Seq<char>)
    requires
        forall|k: int| 0 <= k < inner.len() ==> frame_lookup(#[trigger] inner[k], name) is None,
    ensures
        env_lookup(env + inner, name) == env_lookup(env, name),
    decreases inner.len(),
{
    if inner.len() == 0 {
        assert(env + inner =~= env);
    } else {
        let whole = env + inner;
        assert(whole.last() == inner.last());
        assert(whole.drop_last() =~= env + inner.drop_last());
        assert(frame_lookup(inner[inner.len() - 1], name) is None);
        lemma_outer_lookup_stable(env, inner.drop_last(), name);
    }
}

/// In a frame without the name, appending a binding for it makes lookup
/// find that binding.
proof fn lemma_frame_lookup_pushed(frame: Seq<BindingV>, name: Seq<char>, value: Option<ValueV>)
    requires
        frame_lookup(frame, name) is None,
    ensures
        frame_lookup(frame.push((name, value)), name) == Some(value),
    decreases frame.len(),
{
    if frame.len() == 0 {
        assert(frame.push((name, value))[0] == (name, value));
    } else {
        assert(frame.push((name, value)).drop_first() =~= frame.drop_first().push((name, value)));
        lemma_frame_lookup_pushed(frame.drop_first(), name, value);
    }
}

/// Reassigning a name bound exactly once in a frame leaves the frame with
/// the new value under that name.
proof fn lemma_frame_update_overwrites(frame: Seq<BindingV>, name: Seq<char>, value: Option<ValueV>)
    requires
        frame_lookup(frame, name) is Some,
        forall|j: int, k: int|
            0 <= j < k < frame.len() ==> !(#[trigger] frame[j].0 == name && #[trigger] frame[k].0
                == name),
    ensures
        frame_lookup(frame_update(frame, name, value), name) == Some(value),
    decreases frame.len(),
{
    if frame[0].0 == name {
        assert forall|k: int| 0 <= k < frame.drop_first().len() implies #[trigger] frame.drop_first()[k].0
            != name by {
            assert(frame.drop_first()[k] == frame[k + 1]);
        }
        lemma_frame_lookup_absent(frame.drop_first(), name);
        lemma_frame_lookup_pushed(frame.drop_first(), name, value);
    } else {
        lemma_frame_update_overwrites(frame.drop_first(), name, value);
        let updated = seq![frame[0]] + frame_update(frame.drop_first(), name, value);
        assert(updated[0] == frame[0]);
        assert(updated.drop_first() =~= frame_update(frame.drop_first(), name, value));
    }
}

/// A frame with no binding for a name reports the name as absent.
proof fn lemma_frame_lookup_absent(frame: Seq<BindingV>, name: Seq<char>)
    requires
        forall|k: int| 0 <= k < frame.len() ==> #[trigger] frame[k].0 != name,
    ensures
        frame_lookup(frame, name) is None,
    decreases frame.len(),
{
    if frame.len() > 0 {
        lemma_frame_lookup_absent(frame.drop_first(), name);
    }
}

/// Reassignment overwrites rather than shadows: for a name bound exactly
/// once in the innermost frame, assigning a value leaves lookup answering
/// that value, and the frame keeps its number of bindings.
pub proof fn lemma_assign_overwrites(env: EnvV, name: Seq<char>, value: Option<ValueV>)
    requires
        env.len() >= 1,
        frame_lookup(env.last(), name) is Some,
        forall|j: int, k: int|
            0 <= j < k < env.last().len() ==> !(#[trigger] env.last()[j].0 == name
                && #[trigger] env.last()[k].0 == name),
    ensures
        env_lookup(env_assign(env, name, value), name) == (match frame_lookup(
            frame_update(env.last(), name, value),
            name,
        ) {
            Some(stored) => stored,
            None => env_lookup(env.drop_last(), name),
        }),
        frame_lookup(frame_update(env.last(), name, value), name) == Some(value),
        env_lookup(env_assign(env, name, value), name) == value,
        frame_update(env.last(), name, value).len() == env.last().len(),
    decreases env.len(),
{
    lemma_frame_update_overwrites(env.last(), name, value);
    let assigned = env_assign(env, name, value);
    assert(assigned.last() == frame_update(env.last(), name, value));
    lemma_frame_update_len(env.last(), name, value);
}

/// Reassignment never changes how many bindings a frame holds.
proof fn lemma_frame_update_len(frame: Seq<BindingV>, name: Seq<char>, value: Option<ValueV>)
    ensures
        frame_update(frame, name, value).len() == frame.len(),
    decreases frame.len(),
{
    if frame.len() > 0 && frame[0].0 != name {
        lemma_frame_update_len(frame.drop_first(), name, value);
    }
}

} // verus!
