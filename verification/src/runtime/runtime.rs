//! The evaluator: walks the syntax tree, dispatching per node kind, driving
//! control flow, function calls and interpolation over a lexical scope
//! stack and a function registry.
//!
//! Every behaviour of the evaluator is specified by a mathematical
//! interpreter (the `spec_…` functions below) over the ghost state [`St`],
//! and each evaluator function is proved to refine it.
//! The interpreter runs on a step budget (`fuel`): every node visited and
//! every loop iteration costs one unit, and a run that exhausts its budget
//! fails with [`RunError::StackOverflow`] instead of looping or recursing
//! forever. The host picks the budget.
//!
//! The evaluator itself performs no input or output. Program output is
//! accumulated in the host buffer; a shell command or a module import is
//! answered from the host's reply log, and when the log has no answer yet
//! the run stops with a request error naming what is missing. The host
//! performs the outside work, appends the reply and runs again — evaluation
//! is deterministic, so the repeated run reaches the same point and
//! continues.
use vstd::prelude::*;

use vstd::string::StringExecFns;

use crate::parsing::parser::{def_view, dt_view, expr_view, exprs_view, lemma_exprs_view,
    lemma_strs_view, strs_view, wf_dt, wf_expr, wf_exprs, Block, BlockType, DataType, DataStore, Definition,
    Expr, ExprV, DefV, Function, FunctionType, Literal, Operator, UnaryExpr, Val};
use crate::runtime::values::{err_view, ErrV, RunError};

verus! {

/// One answer from the host: the captured output of a shell command, or a
/// parsed module (`None` when the module file does not exist).
pub enum Reply {
    Shell(String),
    Module(Option<Vec<Expr>>),
}

/// The host side of a run: the output buffer the program writes to, and
/// the log of host replies with a cursor of how many are consumed.
pub struct Host {
    pub output: String,
    pub replies: Vec<Reply>,
    pub used: usize,
}

impl Host {
    /// A fresh host state: no replies, empty output.
    pub fn new() -> (h: Host)
        ensures
            h.output@ == Seq::<char>::empty(),
            h.replies@ == Seq::<Reply>::empty(),
            h.used == 0,
    {
        Host { output: String::new(), replies: Vec::new(), used: 0 }
    }
}

/// The mathematical shape of a host reply.
pub ghost enum Hv {
    Shell(Seq<char>),
    Module(Option<Seq<ExprV>>),
}

/// The denotation of a host reply.
pub open spec fn reply_view(r: Reply) -> Hv {
    match r {
        Reply::Shell(s) => Hv::Shell(s@),
        Reply::Module(m) => Hv::Module(
            match m {
                Some(t) => Some(exprs_view(t@)),
                None => None,
            },
        ),
    }
}

/// The whole evaluation state, mathematically: the scope stack (innermost
/// frame last), the function registry in registration order, the output
/// text, and the host reply log with its cursor. The step budget is passed
/// separately, downwards only.
pub ghost struct St {
    pub scopes: Seq<Seq<(Seq<char>, Val)>>,
    pub funcs: Seq<(Seq<char>, DefV)>,
    pub out: Seq<char>,
    pub replies: Seq<Hv>,
    pub used: int,
}

impl St {
    /// The same state with another scope stack.
    pub open spec fn with_scopes(self, scopes: Seq<Seq<(Seq<char>, Val)>>) -> St {
        St { scopes, ..self }
    }
}

/// The outcome of one piece of evaluation: a result with the state it
/// leaves behind, or the failure that aborts the run.
pub ghost enum Step<T> {
    Done(T, St),
    Fail(ErrV),
}

/// The denotation of one scope frame.
pub open spec fn frame_view(f: Seq<(String, DataType)>) -> Seq<(Seq<char>, Val)>
    decreases f,
{
    if f.len() == 0 {
        Seq::empty()
    } else {
        frame_view(f.drop_last()).push((f.last().0@, dt_view(f.last().1)))
    }
}

/// The denotation of the scope stack.
pub open spec fn scopes_view(ss: Seq<Vec<(String, DataType)>>) -> Seq<Seq<(Seq<char>, Val)>>
    decreases ss,
{
    if ss.len() == 0 {
        Seq::empty()
    } else {
        scopes_view(ss.drop_last()).push(frame_view(ss.last()@))
    }
}

/// The denotation of the function registry.
pub open spec fn reg_view(fs: Seq<(String, Definition)>) -> Seq<(Seq<char>, DefV)>
    decreases fs,
{
    if fs.len() == 0 {
        Seq::empty()
    } else {
        reg_view(fs.drop_last()).push((fs.last().0@, def_view(fs.last().1)))
    }
}

/// The denotation of the reply log.
pub open spec fn replies_view(rs: Seq<Reply>) -> Seq<Hv>
    decreases rs,
{
    if rs.len() == 0 {
        Seq::empty()
    } else {
        replies_view(rs.drop_last()).push(reply_view(rs.last()))
    }
}

/// The mathematical state denoted by the evaluator's working state.
pub open spec fn st_of(
    scopes: Seq<Vec<(String, DataType)>>,
    functions: Seq<(String, Definition)>,
    host: Host,
) -> St {
    St {
        scopes: scopes_view(scopes),
        funcs: reg_view(functions),
        out: host.output@,
        replies: replies_view(host.replies@),
        used: host.used as int,
    }
}

/// `frame_view` maps the frame pointwise.
pub proof fn lemma_frame_view(f: Seq<(String, DataType)>)
    ensures
        frame_view(f).len() == f.len(),
        forall|i: int|
            0 <= i < f.len() ==> frame_view(f)[i] == ((#[trigger] f[i]).0@, dt_view(f[i].1)),
    decreases f,
{
    if f.len() > 0 {
        lemma_frame_view(f.drop_last());
        assert forall|i: int|
            0 <= i < f.len() implies frame_view(f)[i] == ((#[trigger] f[i]).0@, dt_view(
            f[i].1,
        )) by {
            if i < f.len() - 1 {
                assert(f.drop_last()[i] == f[i]);
            } else {
                assert(f.last() == f[i]);
            }
        }
    }
}

/// `scopes_view` maps the stack pointwise.
pub proof fn lemma_scopes_view(ss: Seq<Vec<(String, DataType)>>)
    ensures
        scopes_view(ss).len() == ss.len(),
        forall|i: int|
            0 <= i < ss.len() ==> scopes_view(ss)[i] == frame_view((#[trigger] ss[i])@),
    decreases ss,
{
    if ss.len() > 0 {
        lemma_scopes_view(ss.drop_last());
        assert forall|i: int|
            0 <= i < ss.len() implies scopes_view(ss)[i] == frame_view((#[trigger] ss[i])@) by {
            if i < ss.len() - 1 {
                assert(ss.drop_last()[i] == ss[i]);
            } else {
                assert(ss.last() == ss[i]);
            }
        }
    }
}

/// `reg_view` maps the registry pointwise.
pub proof fn lemma_reg_view(fs: Seq<(String, Definition)>)
    ensures
        reg_view(fs).len() == fs.len(),
        forall|i: int|
            0 <= i < fs.len() ==> reg_view(fs)[i] == ((#[trigger] fs[i]).0@, def_view(fs[i].1)),
    decreases fs,
{
    if fs.len() > 0 {
        lemma_reg_view(fs.drop_last());
        assert forall|i: int|
            0 <= i < fs.len() implies reg_view(fs)[i] == ((#[trigger] fs[i]).0@, def_view(
            fs[i].1,
        )) by {
            if i < fs.len() - 1 {
                assert(fs.drop_last()[i] == fs[i]);
            } else {
                assert(fs.last() == fs[i]);
            }
        }
    }
}

/// `replies_view` maps the log pointwise.
pub proof fn lemma_replies_view(rs: Seq<Reply>)
    ensures
        replies_view(rs).len() == rs.len(),
        forall|i: int|
            0 <= i < rs.len() ==> replies_view(rs)[i] == reply_view(#[trigger] rs[i]),
    decreases rs,
{
    if rs.len() > 0 {
        lemma_replies_view(rs.drop_last());
        assert forall|i: int|
            0 <= i < rs.len() implies replies_view(rs)[i] == reply_view(#[trigger] rs[i]) by {
            if i < rs.len() - 1 {
                assert(rs.drop_last()[i] == rs[i]);
            } else {
                assert(rs.last() == rs[i]);
            }
        }
    }
}

/// The stack denotation changes pointwise under `update`.
proof fn lemma_scopes_view_update(ss: Seq<Vec<(String, DataType)>>, j: int, v: Vec<(String, DataType)>)
    requires
        0 <= j < ss.len(),
    ensures
        scopes_view(ss.update(j, v)) == scopes_view(ss).update(j, frame_view(v@)),
{
    lemma_scopes_view(ss);
    lemma_scopes_view(ss.update(j, v));
    assert forall|k: int|
        0 <= k < ss.len() implies scopes_view(ss.update(j, v))[k] == scopes_view(ss).update(
        j,
        frame_view(v@),
    )[k] by {
        assert(scopes_view(ss.update(j, v))[k] == frame_view(ss.update(j, v)[k]@));
        if k != j {
            assert(ss.update(j, v)[k] == ss[k]);
            assert(scopes_view(ss)[k] == frame_view(ss[k]@));
        }
    }
    assert(scopes_view(ss.update(j, v)) =~= scopes_view(ss).update(j, frame_view(v@)));
}

/// The stack denotation grows pointwise under `push`.
proof fn lemma_scopes_view_push(ss: Seq<Vec<(String, DataType)>>, v: Vec<(String, DataType)>)
    ensures
        scopes_view(ss.push(v)) == scopes_view(ss).push(frame_view(v@)),
{
    assert(ss.push(v).drop_last() =~= ss);
    assert(ss.push(v).last() == v);
    assert(scopes_view(ss.push(v)) =~= scopes_view(ss).push(frame_view(v@)));
}

/// The stack denotation shrinks pointwise under `pop`.
proof fn lemma_scopes_view_drop(ss: Seq<Vec<(String, DataType)>>)
    requires
        ss.len() > 0,
    ensures
        scopes_view(ss.drop_last()) == scopes_view(ss).drop_last(),
{
    assert(scopes_view(ss) == scopes_view(ss.drop_last()).push(frame_view(ss.last()@)));
    assert(scopes_view(ss.drop_last()) =~= scopes_view(ss).drop_last());
}

/// The registry denotation changes pointwise under `update`.
proof fn lemma_reg_view_update(fs: Seq<(String, Definition)>, j: int, e: (String, Definition))
    requires
        0 <= j < fs.len(),
    ensures
        reg_view(fs.update(j, e)) == reg_view(fs).update(j, (e.0@, def_view(e.1))),
{
    lemma_reg_view(fs);
    lemma_reg_view(fs.update(j, e));
    assert forall|k: int|
        0 <= k < fs.len() implies reg_view(fs.update(j, e))[k] == reg_view(fs).update(
        j,
        (e.0@, def_view(e.1)),
    )[k] by {
        assert(reg_view(fs.update(j, e))[k] == (fs.update(j, e)[k].0@, def_view(
            fs.update(j, e)[k].1,
        )));
        if k != j {
            assert(fs.update(j, e)[k] == fs[k]);
            assert(reg_view(fs)[k] == (fs[k].0@, def_view(fs[k].1)));
        }
    }
    assert(reg_view(fs.update(j, e)) =~= reg_view(fs).update(j, (e.0@, def_view(e.1))));
}

/// The registry denotation grows pointwise under `push`.
proof fn lemma_reg_view_push(fs: Seq<(String, Definition)>, e: (String, Definition))
    ensures
        reg_view(fs.push(e)) == reg_view(fs).push((e.0@, def_view(e.1))),
{
    assert(fs.push(e).drop_last() =~= fs);
    assert(fs.push(e).last() == e);
    assert(reg_view(fs.push(e)) =~= reg_view(fs).push((e.0@, def_view(e.1))));
}

/// Every value in a frame is well formed.
pub open spec fn wf_frame(f: Seq<(String, DataType)>) -> bool {
    forall|i: int| 0 <= i < f.len() ==> wf_dt((#[trigger] f[i]).1)
}

/// Every frame of the stack is well formed.
pub open spec fn wf_scopes(ss: Seq<Vec<(String, DataType)>>) -> bool {
    forall|i: int| 0 <= i < ss.len() ==> wf_frame((#[trigger] ss[i])@)
}

/// Every registered definition has a well-formed body.
pub open spec fn wf_reg(fs: Seq<(String, Definition)>) -> bool {
    forall|i: int| 0 <= i < fs.len() ==> wf_exprs((#[trigger] fs[i]).1.block@)
}

/// Every module tree in the reply log is well formed.
pub open spec fn wf_replies(rs: Seq<Reply>) -> bool {
    forall|i: int|
        0 <= i < rs.len() ==> match #[trigger] rs[i] {
            Reply::Module(Some(t)) => wf_exprs(t@),
            _ => true,
        }
}

/// Looks a name up in one frame: the value of its first entry with that
/// name.
pub open spec fn frame_get(f: Seq<(Seq<char>, Val)>, name: Seq<char>) -> Option<Val>
    decreases f,
{
    if f.len() == 0 {
        None
    } else if f[0].0 == name {
        Some(f[0].1)
    } else {
        frame_get(f.drop_first(), name)
    }
}

/// Rewrites the first entry with the given name, or appends a new entry
/// when the name is absent: an insertion-ordered map update.
pub open spec fn frame_set(f: Seq<(Seq<char>, Val)>, name: Seq<char>, v: Val) -> Seq<
    (Seq<char>, Val),
>
    decreases f,
{
    if f.len() == 0 {
        seq![(name, v)]
    } else if f[0].0 == name {
        seq![(name, v)] + f.drop_first()
    } else {
        seq![f[0]] + frame_set(f.drop_first(), name, v)
    }
}

/// Looks a name up in the stack, innermost frame first.
pub open spec fn scopes_get(ss: Seq<Seq<(Seq<char>, Val)>>, name: Seq<char>) -> Option<Val>
    decreases ss,
{
    if ss.len() == 0 {
        None
    } else {
        match frame_get(ss.last(), name) {
            Some(v) => Some(v),
            None => scopes_get(ss.drop_last(), name),
        }
    }
}

/// Rewrites the innermost frame that already holds the name; when no frame
/// does, inserts into the innermost frame.
pub open spec fn scopes_set(ss: Seq<Seq<(Seq<char>, Val)>>, name: Seq<char>, v: Val) -> Seq<
    Seq<(Seq<char>, Val)>,
>
    decreases ss,
{
    if ss.len() == 0 {
        ss
    } else if frame_get(ss.last(), name) is Some || scopes_get(ss.drop_last(), name) is None {
        ss.drop_last().push(frame_set(ss.last(), name, v))
    } else {
        scopes_set(ss.drop_last(), name, v).push(ss.last())
    }
}

/// Rewrites or inserts the name in the innermost frame only.
pub open spec fn scopes_set_current(ss: Seq<Seq<(Seq<char>, Val)>>, name: Seq<char>, v: Val) -> Seq<
    Seq<(Seq<char>, Val)>,
>
    recommends
        ss.len() > 0,
{
    ss.drop_last().push(frame_set(ss.last(), name, v))
}

/// Looks a name up in the registry: the definition of its first entry with
/// that name.
pub open spec fn reg_get(fs: Seq<(Seq<char>, DefV)>, name: Seq<char>) -> Option<DefV>
    decreases fs,
{
    if fs.len() == 0 {
        None
    } else if fs[0].0 == name {
        Some(fs[0].1)
    } else {
        reg_get(fs.drop_first(), name)
    }
}

/// Rewrites the first registry entry with the given name, or appends one:
/// redefinition overwrites.
pub open spec fn reg_set(fs: Seq<(Seq<char>, DefV)>, name: Seq<char>, d: DefV) -> Seq<
    (Seq<char>, DefV),
>
    decreases fs,
{
    if fs.len() == 0 {
        seq![(name, d)]
    } else if fs[0].0 == name {
        seq![(name, d)] + fs.drop_first()
    } else {
        seq![fs[0]] + reg_set(fs.drop_first(), name, d)
    }
}


/// A name absent from the first `i` entries leaves the lookup to the rest
/// of the frame.
proof fn lemma_frame_get_skip(f: Seq<(Seq<char>, Val)>, name: Seq<char>, i: int)
    requires
        0 <= i <= f.len(),
        forall|k: int| 0 <= k < i ==> (#[trigger] f[k]).0 != name,
    ensures
        frame_get(f, name) == frame_get(f.skip(i), name),
    decreases i,
{
    if i > 0 {
        lemma_frame_get_skip(f, name, i - 1);
        assert(f.skip(i - 1).len() > 0);
        assert(f.skip(i - 1)[0] == f[i - 1]);
        assert(f.skip(i - 1).drop_first() =~= f.skip(i));
    } else {
        assert(f.skip(0) =~= f);
    }
}

/// Rewriting a name found first at entry `i` updates exactly that entry.
proof fn lemma_frame_set_hit(f: Seq<(Seq<char>, Val)>, name: Seq<char>, v: Val, i: int)
    requires
        0 <= i < f.len(),
        forall|k: int| 0 <= k < i ==> (#[trigger] f[k]).0 != name,
        f[i].0 == name,
    ensures
        frame_set(f, name, v) == f.update(i, (name, v)),
    decreases i,
{
    if i == 0 {
        assert(frame_set(f, name, v) =~= f.update(0, (name, v)));
    } else {
        assert(f.drop_first()[i - 1] == f[i]);
        assert forall|k: int| 0 <= k < i - 1 implies (#[trigger] f.drop_first()[k]).0 != name by {
            assert(f.drop_first()[k] == f[k + 1]);
        }
        lemma_frame_set_hit(f.drop_first(), name, v, i - 1);
        assert(frame_set(f, name, v) =~= f.update(i, (name, v)));
    }
}

/// Writing an absent name appends one entry.
proof fn lemma_frame_set_miss(f: Seq<(Seq<char>, Val)>, name: Seq<char>, v: Val)
    requires
        forall|k: int| 0 <= k < f.len() ==> (#[trigger] f[k]).0 != name,
    ensures
        frame_set(f, name, v) == f.push((name, v)),
        frame_get(f, name) is None,
    decreases f.len(),
{
    if f.len() == 0 {
        assert(frame_set(f, name, v) =~= f.push((name, v)));
    } else {
        assert forall|k: int|
            0 <= k < f.drop_first().len() implies (#[trigger] f.drop_first()[k]).0 != name by {
            assert(f.drop_first()[k] == f[k + 1]);
        }
        lemma_frame_set_miss(f.drop_first(), name, v);
        assert(frame_set(f, name, v) =~= f.push((name, v)));
    }
}

/// A name found in no frame above `j` leaves the stack lookup to the first
/// `j` frames.
proof fn lemma_scopes_get_skip(sv: Seq<Seq<(Seq<char>, Val)>>, name: Seq<char>, j: int)
    requires
        0 <= j <= sv.len(),
        forall|k: int| j <= k < sv.len() ==> frame_get(#[trigger] sv[k], name) is None,
    ensures
        scopes_get(sv, name) == scopes_get(sv.take(j), name),
    decreases sv.len() - j,
{
    if j < sv.len() {
        lemma_scopes_get_skip(sv.take(sv.len() - 1), name, j);
        assert(sv.take(sv.len() - 1).take(j) =~= sv.take(j));
        assert(sv.last() == sv[sv.len() - 1]);
        assert(sv.drop_last() =~= sv.take(sv.len() - 1));
        assert forall|k: int|
            j <= k < sv.take(sv.len() - 1).len() implies frame_get(
            #[trigger] sv.take(sv.len() - 1)[k],
            name,
        ) is None by {
            assert(sv.take(sv.len() - 1)[k] == sv[k]);
        }
    } else {
        assert(sv.take(j) =~= sv);
    }
}

/// When the innermost frame holding the name is frame `j`, the stack write
/// rewrites exactly that frame.
proof fn lemma_scopes_set_hit(sv: Seq<Seq<(Seq<char>, Val)>>, name: Seq<char>, v: Val, j: int)
    requires
        0 <= j < sv.len(),
        forall|k: int| j < k < sv.len() ==> frame_get(#[trigger] sv[k], name) is None,
        frame_get(sv[j], name) is Some,
    ensures
        scopes_set(sv, name, v) == sv.update(j, frame_set(sv[j], name, v)),
    decreases sv.len(),
{
    if j == sv.len() - 1 {
        assert(sv.last() == sv[j]);
        assert(scopes_set(sv, name, v) =~= sv.update(j, frame_set(sv[j], name, v)));
    } else {
        assert(frame_get(sv.last(), name) is None) by {
            assert(sv.last() == sv[sv.len() - 1]);
        }
        assert(scopes_get(sv.drop_last(), name) is Some) by {
            lemma_scopes_get_skip(sv.drop_last(), name, j + 1);
            assert forall|k: int|
                j + 1 <= k < sv.drop_last().len() implies frame_get(
                #[trigger] sv.drop_last()[k],
                name,
            ) is None by {
                assert(sv.drop_last()[k] == sv[k]);
            }
            lemma_scopes_get_found_in(sv.drop_last().take(j + 1), name, j);
            assert(sv.drop_last().take(j + 1)[j] == sv[j]);
        }
        assert forall|k: int|
            j < k < sv.drop_last().len() implies frame_get(
            #[trigger] sv.drop_last()[k],
            name,
        ) is None by {
            assert(sv.drop_last()[k] == sv[k]);
        }
        assert(sv.drop_last()[j] == sv[j]);
        lemma_scopes_set_hit(sv.drop_last(), name, v, j);
        assert(scopes_set(sv, name, v) =~= sv.update(j, frame_set(sv[j], name, v)));
    }
}

/// A lookup whose last frame holds the name finds it there.
proof fn lemma_scopes_get_found_in(sv: Seq<Seq<(Seq<char>, Val)>>, name: Seq<char>, j: int)
    requires
        0 <= j < sv.len(),
        j == sv.len() - 1,
        frame_get(sv[j], name) is Some,
    ensures
        scopes_get(sv, name) == frame_get(sv[j], name),
{
    assert(sv.last() == sv[j]);
}

/// When no frame holds the name, the stack write inserts into the
/// innermost frame.
proof fn lemma_scopes_set_miss(sv: Seq<Seq<(Seq<char>, Val)>>, name: Seq<char>, v: Val)
    requires
        sv.len() > 0,
        forall|k: int| 0 <= k < sv.len() ==> frame_get(#[trigger] sv[k], name) is None,
    ensures
        scopes_set(sv, name, v) == sv.update(
            sv.len() - 1,
            frame_set(sv[sv.len() - 1], name, v),
        ),
        scopes_get(sv, name) is None,
    decreases sv.len(),
{
    lemma_scopes_get_skip(sv, name, 0);
    assert(sv.take(0) =~= Seq::<Seq<(Seq<char>, Val)>>::empty());
    assert(frame_get(sv.last(), name) is None) by {
        assert(sv.last() == sv[sv.len() - 1]);
    }
    assert(scopes_set(sv, name, v) =~= sv.update(sv.len() - 1, frame_set(sv[sv.len() - 1], name, v)));
}

/// Whether one frame holds the name.
#[verifier::loop_isolation(false)]
fn frame_has(f: &Vec<(String, DataType)>, name: &String) -> (b: bool)
    ensures
        b == (frame_get(frame_view(f@), name@) is Some),
{
    proof {
        lemma_frame_view(f@);
    }
    let n = f.len();
    let mut i: usize = 0;
    while i < n
        invariant
            i <= n,
            n == f@.len(),
            forall|k: int| 0 <= k < i ==> (#[trigger] f@[k]).0@ != name@,
        decreases n - i,
    {
        if f[i].0 == *name {
            proof {
                assert(frame_view(f@)[i as int].0 == name@);
                assert forall|k: int|
                    0 <= k < i implies (#[trigger] frame_view(f@)[k]).0 != name@ by {
                    assert(frame_view(f@)[k] == (f@[k].0@, dt_view(f@[k].1)));
                }
                lemma_frame_get_skip(frame_view(f@), name@, i as int);
                assert(frame_view(f@).skip(i as int)[0] == frame_view(f@)[i as int]);
            }
            return true;
        }
        i += 1;
    }
    proof {
        assert forall|k: int|
            0 <= k < frame_view(f@).len() implies (#[trigger] frame_view(f@)[k]).0 != name@ by {
            assert(frame_view(f@)[k] == (f@[k].0@, dt_view(f@[k].1)));
        }
        lemma_frame_get_skip(frame_view(f@), name@, n as int);
        assert(frame_view(f@).skip(n as int) =~= Seq::<(Seq<char>, Val)>::empty());
    }
    false
}

/// The value under the name in one frame, if any.
#[verifier::loop_isolation(false)]
fn frame_lookup(f: &Vec<(String, DataType)>, name: &String) -> (r: Option<DataType>)
    requires
        wf_frame(f@),
    ensures
        match r {
            Some(d) => frame_get(frame_view(f@), name@) == Some(dt_view(d)) && wf_dt(d),
            None => frame_get(frame_view(f@), name@) is None,
        },
{
    proof {
        lemma_frame_view(f@);
    }
    let n = f.len();
    let mut i: usize = 0;
    while i < n
        invariant
            i <= n,
            n == f@.len(),
            wf_frame(f@),
            forall|k: int| 0 <= k < i ==> (#[trigger] f@[k]).0@ != name@,
        decreases n - i,
    {
        if f[i].0 == *name {
            proof {
                assert(wf_dt(f@[i as int].1));
                assert forall|k: int|
                    0 <= k < i implies (#[trigger] frame_view(f@)[k]).0 != name@ by {
                    assert(frame_view(f@)[k] == (f@[k].0@, dt_view(f@[k].1)));
                }
                lemma_frame_get_skip(frame_view(f@), name@, i as int);
                assert(frame_view(f@).skip(i as int)[0] == frame_view(f@)[i as int]);
                assert(frame_view(f@)[i as int] == (f@[i as int].0@, dt_view(f@[i as int].1)));
            }
            return Some(f[i].1.clone());
        }
        i += 1;
    }
    proof {
        assert forall|k: int|
            0 <= k < frame_view(f@).len() implies (#[trigger] frame_view(f@)[k]).0 != name@ by {
            assert(frame_view(f@)[k] == (f@[k].0@, dt_view(f@[k].1)));
        }
        lemma_frame_get_skip(frame_view(f@), name@, n as int);
        assert(frame_view(f@).skip(n as int) =~= Seq::<(Seq<char>, Val)>::empty());
    }
    None
}

/// The frame with the first entry under the name rewritten, or with a new
/// entry appended when the name is absent.
#[verifier::loop_isolation(false)]
fn frame_stored(f: &Vec<(String, DataType)>, name: &String, value: DataType) -> (r: Vec<
    (String, DataType),
>)
    requires
        wf_frame(f@),
        wf_dt(value),
    ensures
        frame_view(r@) == frame_set(frame_view(f@), name@, dt_view(value)),
        wf_frame(r@),
{
    proof {
        lemma_frame_view(f@);
    }
    let n = f.len();
    let mut hit: usize = n;
    let mut i: usize = 0;
    while i < n
        invariant
            i <= n,
            n == f@.len(),
            hit <= n,
            hit == n ==> forall|k: int| 0 <= k < i ==> (#[trigger] f@[k]).0@ != name@,
            hit < n ==> hit < i && f@[hit as int].0@ == name@ && (forall|k: int|
                0 <= k < hit ==> (#[trigger] f@[k]).0@ != name@),
        decreases n - i,
    {
        if hit == n && f[i].0 == *name {
            hit = i;
        }
        i += 1;
    }
    let mut out: Vec<(String, DataType)> = Vec::new();
    let mut k: usize = 0;
    while k < n
        invariant
            k <= n,
            n == f@.len(),
            wf_frame(f@),
            wf_dt(value),
            hit <= n,
            hit < n ==> f@[hit as int].0@ == name@,
            hit < n ==> forall|j: int| 0 <= j < hit ==> (#[trigger] f@[j]).0@ != name@,
            hit == n ==> forall|j: int| 0 <= j < n ==> (#[trigger] f@[j]).0@ != name@,
            out@.len() == k,
            wf_frame(out@),
            forall|j: int|
                0 <= j < k ==> frame_view(out@)[j] == (if j == hit {
                    (name@, dt_view(value))
                } else {
                    frame_view(f@)[j]
                }),
        decreases n - k,
    {
        proof {
            lemma_frame_view(out@);
            lemma_frame_view(f@);
        }
        let ghost pre = out@;
        if k == hit {
            out.push((name.clone(), value.clone()));
        } else {
            out.push((f[k].0.clone(), f[k].1.clone()));
        }
        proof {
            lemma_frame_view(out@);
            assert(out@.drop_last() =~= pre);
            assert forall|j: int|
                0 <= j < k + 1 implies frame_view(out@)[j] == (if j == hit {
                (name@, dt_view(value))
            } else {
                frame_view(f@)[j]
            }) by {
                assert(frame_view(out@)[j] == (out@[j].0@, dt_view(out@[j].1)));
                if j < k {
                    assert(out@[j] == pre[j]);
                    assert(frame_view(pre)[j] == (pre[j].0@, dt_view(pre[j].1)));
                } else {
                    assert(frame_view(f@)[j] == (f@[j].0@, dt_view(f@[j].1)));
                }
            }
        }
        k += 1;
    }
    proof {
        lemma_frame_view(out@);
        lemma_frame_view(f@);
        if hit < n {
            assert forall|k: int|
                0 <= k < hit implies (#[trigger] frame_view(f@)[k]).0 != name@ by {
                assert(frame_view(f@)[k] == (f@[k].0@, dt_view(f@[k].1)));
            }
            assert(frame_view(f@)[hit as int].0 == name@);
            lemma_frame_set_hit(frame_view(f@), name@, dt_view(value), hit as int);
            assert(frame_view(out@) =~= frame_view(f@).update(
                hit as int,
                (name@, dt_view(value)),
            ));
        } else {
            let ghost pre = out@;
            assert(frame_view(f@) =~= frame_view(out@));
        }
    }
    if hit == n {
        proof {
            assert forall|j: int|
                0 <= j < frame_view(f@).len() implies (#[trigger] frame_view(f@)[j]).0
                != name@ by {
                assert(frame_view(f@)[j] == (f@[j].0@, dt_view(f@[j].1)));
            }
            lemma_frame_set_miss(frame_view(f@), name@, dt_view(value));
        }
        let ghost pre = out@;
        out.push((name.clone(), value));
        proof {
            lemma_frame_view(out@);
            assert(out@.drop_last() =~= pre);
            assert(frame_view(out@) =~= frame_view(pre).push((name@, dt_view(value))));
        }
    }
    out
}

/// Looks a variable up, scanning frames innermost to outermost; absent in
/// every frame, the lookup fails with `UndefinedVariable`.
#[verifier::loop_isolation(false)]
pub fn get_from_scope(scopes: &Vec<Vec<(String, DataType)>>, name: &String) -> (r: Result<
    DataType,
    RunError,
>)
    requires
        wf_scopes(scopes@),
    ensures
        match r {
            Ok(d) => scopes_get(scopes_view(scopes@), name@) == Some(dt_view(d)) && wf_dt(d),
            Err(e) => scopes_get(scopes_view(scopes@), name@) is None && err_view(e)
                == ErrV::UndefinedVariable(name@),
        },
{
    proof {
        lemma_scopes_view(scopes@);
    }
    let n = scopes.len();
    let mut j: usize = n;
    while j > 0
        invariant
            j <= n,
            n == scopes@.len(),
            wf_scopes(scopes@),
            forall|k: int|
                j <= k < n ==> frame_get(#[trigger] scopes_view(scopes@)[k], name@) is None,
        decreases j,
    {
        j -= 1;
        match frame_lookup(&scopes[j], name) {
            Some(d) => {
                proof {
                    lemma_scopes_get_skip(scopes_view(scopes@), name@, j + 1);
                    lemma_scopes_get_found_in(
                        scopes_view(scopes@).take(j + 1),
                        name@,
                        j as int,
                    );
                    assert(scopes_view(scopes@).take(j + 1)[j as int] == scopes_view(
                        scopes@,
                    )[j as int]);
                }
                return Ok(d);
            },
            None => {
                proof {
                    assert(scopes_view(scopes@)[j as int] == frame_view(scopes@[j as int]@));
                }
            },
        }
    }
    proof {
        lemma_scopes_get_skip(scopes_view(scopes@), name@, 0);
        assert(scopes_view(scopes@).take(0) =~= Seq::<Seq<(Seq<char>, Val)>>::empty());
    }
    Err(RunError::UndefinedVariable(name.clone()))
}

/// Writes a variable: rewrites it in the innermost frame that holds it, or
/// inserts it into the innermost frame when no frame does.
#[verifier::loop_isolation(false)]
pub fn set_into_scope(
    scopes: &mut Vec<Vec<(String, DataType)>>,
    name: &String,
    value: DataType,
)
    requires
        old(scopes)@.len() > 0,
        wf_scopes(old(scopes)@),
        wf_dt(value),
    ensures
        scopes_view(final(scopes)@) == scopes_set(scopes_view(old(scopes)@), name@, dt_view(value)),
        wf_scopes(final(scopes)@),
        final(scopes)@.len() == old(scopes)@.len(),
{
    proof {
        lemma_scopes_view(scopes@);
    }
    let n = scopes.len();
    let mut j: usize = n;
    while j > 0
        invariant
            j <= n,
            n == scopes@.len(),
            scopes@ == old(scopes)@,
            wf_scopes(scopes@),
            wf_dt(value),
            forall|k: int|
                j <= k < n ==> frame_get(#[trigger] scopes_view(scopes@)[k], name@) is None,
        decreases j,
    {
        j -= 1;
        if frame_has(&scopes[j], name) {
            proof {
                assert(scopes_view(scopes@)[j as int] == frame_view(scopes@[j as int]@));
                lemma_scopes_set_hit(scopes_view(scopes@), name@, dt_view(value), j as int);
            }
            let ghost pre = scopes@;
            let fr = frame_stored(&scopes[j], name, value);
            let ghost frv = fr@;
            scopes[j] = fr;
            proof {
                assert(scopes@ =~= pre.update(j as int, scopes@[j as int]));
                assert(scopes@[j as int]@ == frv);
                lemma_scopes_view_update(pre, j as int, scopes@[j as int]);
                lemma_scopes_view(pre);
                assert(scopes_view(pre)[j as int] == frame_view(pre[j as int]@));
                assert(scopes_view(scopes@) == scopes_set(
                    scopes_view(pre),
                    name@,
                    dt_view(value),
                ));
                lemma_scopes_view(scopes@);
            }
            return ;
        }
        proof {
            assert(scopes_view(scopes@)[j as int] == frame_view(scopes@[j as int]@));
        }
    }
    proof {
        lemma_scopes_set_miss(scopes_view(scopes@), name@, dt_view(value));
    }
    let ghost pre = scopes@;
    let last = scopes.len() - 1;
    let fr = frame_stored(&scopes[last], name, value);
    let ghost frv = fr@;
    scopes[last] = fr;
    proof {
        assert(scopes@ =~= pre.update(last as int, scopes@[last as int]));
        assert(scopes@[last as int]@ == frv);
        lemma_scopes_view_update(pre, last as int, scopes@[last as int]);
        lemma_scopes_view(pre);
        assert(scopes_view(pre)[last as int] == frame_view(pre[last as int]@));
        assert(scopes_view(scopes@) == scopes_set(scopes_view(pre), name@, dt_view(value)));
        lemma_scopes_view(scopes@);
    }
}

/// Writes a variable into the innermost frame only.
pub fn set_into_current_scope(
    scopes: &mut Vec<Vec<(String, DataType)>>,
    name: &String,
    value: DataType,
)
    requires
        old(scopes)@.len() > 0,
        wf_scopes(old(scopes)@),
        wf_dt(value),
    ensures
        scopes_view(final(scopes)@) == scopes_set_current(
            scopes_view(old(scopes)@),
            name@,
            dt_view(value),
        ),
        wf_scopes(final(scopes)@),
        final(scopes)@.len() == old(scopes)@.len(),
{
    proof {
        lemma_scopes_view(scopes@);
    }
    let ghost pre = scopes@;
    let last = scopes.len() - 1;
    let fr = frame_stored(&scopes[last], name, value);
    let ghost frv = fr@;
    scopes[last] = fr;
    proof {
        assert(scopes@ =~= pre.update(last as int, scopes@[last as int]));
        assert(scopes@[last as int]@ == frv);
        lemma_scopes_view_update(pre, last as int, scopes@[last as int]);
        lemma_scopes_view(pre);
        assert(scopes_view(pre)[last as int] == frame_view(pre[last as int]@));
        assert(scopes_view(pre).last() == scopes_view(pre)[last as int]);
        assert(scopes_view(scopes@) =~= scopes_set_current(
            scopes_view(pre),
            name@,
            dt_view(value),
        ));
        lemma_scopes_view(scopes@);
    }
}


/// A name absent from the first `i` registry entries leaves the lookup to
/// the rest.
proof fn lemma_reg_get_skip(fs: Seq<(Seq<char>, DefV)>, name: Seq<char>, i: int)
    requires
        0 <= i <= fs.len(),
        forall|k: int| 0 <= k < i ==> (#[trigger] fs[k]).0 != name,
    ensures
        reg_get(fs, name) == reg_get(fs.skip(i), name),
    decreases i,
{
    if i > 0 {
        lemma_reg_get_skip(fs, name, i - 1);
        assert(fs.skip(i - 1).len() > 0);
        assert(fs.skip(i - 1)[0] == fs[i - 1]);
        assert(fs.skip(i - 1).drop_first() =~= fs.skip(i));
    } else {
        assert(fs.skip(0) =~= fs);
    }
}

/// Redefining a name found first at entry `i` rewrites exactly that entry.
proof fn lemma_reg_set_hit(fs: Seq<(Seq<char>, DefV)>, name: Seq<char>, d: DefV, i: int)
    requires
        0 <= i < fs.len(),
        forall|k: int| 0 <= k < i ==> (#[trigger] fs[k]).0 != name,
        fs[i].0 == name,
    ensures
        reg_set(fs, name, d) == fs.update(i, (name, d)),
    decreases i,
{
    if i == 0 {
        assert(reg_set(fs, name, d) =~= fs.update(0, (name, d)));
    } else {
        assert(fs.drop_first()[i - 1] == fs[i]);
        assert forall|k: int| 0 <= k < i - 1 implies (#[trigger] fs.drop_first()[k]).0 != name by {
            assert(fs.drop_first()[k] == fs[k + 1]);
        }
        lemma_reg_set_hit(fs.drop_first(), name, d, i - 1);
        assert(reg_set(fs, name, d) =~= fs.update(i, (name, d)));
    }
}

/// Registering an absent name appends one entry.
proof fn lemma_reg_set_miss(fs: Seq<(Seq<char>, DefV)>, name: Seq<char>, d: DefV)
    requires
        forall|k: int| 0 <= k < fs.len() ==> (#[trigger] fs[k]).0 != name,
    ensures
        reg_set(fs, name, d) == fs.push((name, d)),
        reg_get(fs, name) is None,
    decreases fs.len(),
{
    if fs.len() == 0 {
        assert(reg_set(fs, name, d) =~= fs.push((name, d)));
    } else {
        assert forall|k: int|
            0 <= k < fs.drop_first().len() implies (#[trigger] fs.drop_first()[k]).0 != name by {
            assert(fs.drop_first()[k] == fs[k + 1]);
        }
        lemma_reg_set_miss(fs.drop_first(), name, d);
        assert(reg_set(fs, name, d) =~= fs.push((name, d)));
    }
}

/// The registered definition under a name, if any.
#[verifier::loop_isolation(false)]
fn reg_lookup(functions: &Vec<(String, Definition)>, name: &String) -> (r: Option<Definition>)
    requires
        wf_reg(functions@),
    ensures
        match r {
            Some(d) => reg_get(reg_view(functions@), name@) == Some(def_view(d)) && wf_exprs(
                d.block@,
            ),
            None => reg_get(reg_view(functions@), name@) is None,
        },
{
    proof {
        lemma_reg_view(functions@);
    }
    let n = functions.len();
    let mut i: usize = 0;
    while i < n
        invariant
            i <= n,
            n == functions@.len(),
            wf_reg(functions@),
            forall|k: int| 0 <= k < i ==> (#[trigger] functions@[k]).0@ != name@,
        decreases n - i,
    {
        if functions[i].0 == *name {
            proof {
                assert forall|k: int|
                    0 <= k < i implies (#[trigger] reg_view(functions@)[k]).0 != name@ by {
                    assert(reg_view(functions@)[k] == (functions@[k].0@, def_view(
                        functions@[k].1,
                    )));
                }
                lemma_reg_get_skip(reg_view(functions@), name@, i as int);
                assert(reg_view(functions@).skip(i as int)[0] == reg_view(functions@)[i as int]);
                assert(reg_view(functions@)[i as int] == (functions@[i as int].0@, def_view(
                    functions@[i as int].1,
                )));
                assert(wf_exprs(functions@[i as int].1.block@));
            }
            return Some(functions[i].1.clone());
        }
        i += 1;
    }
    proof {
        assert forall|k: int|
            0 <= k < reg_view(functions@).len() implies (#[trigger] reg_view(functions@)[k]).0
            != name@ by {
            assert(reg_view(functions@)[k] == (functions@[k].0@, def_view(functions@[k].1)));
        }
        lemma_reg_get_skip(reg_view(functions@), name@, n as int);
        assert(reg_view(functions@).skip(n as int) =~= Seq::<(Seq<char>, DefV)>::empty());
    }
    None
}

/// Registers a definition under a name; redefinition overwrites.
#[verifier::loop_isolation(false)]
fn reg_define(functions: &mut Vec<(String, Definition)>, name: &String, def: Definition)
    requires
        wf_reg(old(functions)@),
        wf_exprs(def.block@),
    ensures
        reg_view(final(functions)@) == reg_set(reg_view(old(functions)@), name@, def_view(def)),
        wf_reg(final(functions)@),
{
    proof {
        lemma_reg_view(functions@);
    }
    let n = functions.len();
    let mut i: usize = 0;
    while i < n
        invariant
            i <= n,
            n == functions@.len(),
            functions@ == old(functions)@,
            wf_reg(functions@),
            wf_exprs(def.block@),
            forall|k: int| 0 <= k < i ==> (#[trigger] functions@[k]).0@ != name@,
        decreases n - i,
    {
        if functions[i].0 == *name {
            proof {
                assert forall|k: int|
                    0 <= k < i implies (#[trigger] reg_view(functions@)[k]).0 != name@ by {
                    assert(reg_view(functions@)[k] == (functions@[k].0@, def_view(
                        functions@[k].1,
                    )));
                }
                lemma_reg_set_hit(reg_view(functions@), name@, def_view(def), i as int);
            }
            let ghost pre = functions@;
            functions[i] = (name.clone(), def);
            proof {
                assert(functions@ =~= pre.update(i as int, functions@[i as int]));
                lemma_reg_view_update(pre, i as int, functions@[i as int]);
                lemma_reg_view(pre);
                assert(reg_view(pre)[i as int] == (pre[i as int].0@, def_view(pre[i as int].1)));
                assert(reg_view(functions@) == reg_set(reg_view(pre), name@, def_view(
                    functions@[i as int].1,
                )));
                lemma_reg_view(functions@);
            }
            return ;
        }
        i += 1;
    }
    proof {
        assert forall|k: int|
            0 <= k < reg_view(functions@).len() implies (#[trigger] reg_view(functions@)[k]).0
            != name@ by {
            assert(reg_view(functions@)[k] == (functions@[k].0@, def_view(functions@[k].1)));
        }
        lemma_reg_set_miss(reg_view(functions@), name@, def_view(def));
    }
    let ghost pre = functions@;
    functions.push((name.clone(), def));
    proof {
        assert(functions@ =~= pre.push(functions@[functions@.len() - 1]));
        lemma_reg_view_push(pre, functions@[functions@.len() - 1]);
        lemma_reg_view(pre);
        assert(reg_view(functions@) == reg_view(pre).push(
            (name@, def_view(functions@[functions@.len() - 1].1)),
        ));
        lemma_reg_view(functions@);
    }
}


/// Lifts a pure operation's outcome into a step at the given state.
pub open spec fn lift(r: Result<Val, ErrV>, st: St) -> Step<Val> {
    match r {
        Ok(v) => Step::Done(v, st),
        Err(e) => Step::Fail(e),
    }
}

/// Whether a call name is one of the fixed builtins.
pub open spec fn is_builtin_name(n: Seq<char>) -> bool {
    ||| n == "length"@
    ||| n == "pop"@
    ||| n == "push"@
    ||| n == "swap"@
    ||| n == "delete"@
    ||| n == "int"@
    ||| n == "string"@
}

/// What the builtin with the given name returns on evaluated arguments.
pub open spec fn spec_builtin(n: Seq<char>, vals: Seq<Val>) -> Result<Val, ErrV> {
    if n == "length"@ {
        crate::runtime::functions::spec_run_len(vals)
    } else if n == "pop"@ {
        crate::runtime::functions::spec_run_pop(vals)
    } else if n == "push"@ {
        crate::runtime::functions::spec_run_push(vals)
    } else if n == "swap"@ {
        crate::runtime::functions::spec_run_swap(vals)
    } else if n == "delete"@ {
        crate::runtime::functions::spec_run_delete(vals)
    } else if n == "int"@ {
        crate::runtime::functions::spec_run_int(vals)
    } else {
        crate::runtime::functions::spec_run_string(vals)
    }
}

/// The parameter frame of a call: parameters bound to argument values by
/// position, in order.
pub open spec fn bind_params(params: Seq<Seq<char>>, vals: Seq<Val>) -> Seq<(Seq<char>, Val)>
    recommends
        params.len() == vals.len(),
    decreases params,
{
    if params.len() == 0 {
        Seq::empty()
    } else {
        frame_set(
            bind_params(params.drop_last(), vals.drop_last()),
            params.last(),
            vals.last(),
        )
    }
}

/// What one binary operator means, applied to evaluated operands. In
/// expression position `=` has no meaning and fails.
pub open spec fn spec_binop(op: Operator, lv: Val, rv: Val) -> Result<Val, ErrV> {
    match op {
        Operator::Plus => crate::runtime::operations::spec_add(lv, rv),
        Operator::Minus => crate::runtime::operations::spec_subtract(lv, rv),
        Operator::Times => crate::runtime::operations::spec_multiply(lv, rv),
        Operator::Divide => crate::runtime::operations::spec_divide(lv, rv),
        Operator::EqualTo => crate::runtime::operations::spec_equals(lv, rv),
        Operator::LesserThan => crate::runtime::operations::spec_lesser(lv, rv),
        Operator::GreaterThan => crate::runtime::operations::spec_greater(lv, rv),
        Operator::EqualLesser => crate::runtime::operations::spec_equal_lesser(lv, rv),
        Operator::EqualGreater => crate::runtime::operations::spec_equal_greater(lv, rv),
        Operator::NotEqual => crate::runtime::operations::spec_not_equal(lv, rv),
        Operator::And => crate::runtime::operations::spec_and(lv, rv),
        Operator::Or => crate::runtime::operations::spec_or(lv, rv),
        Operator::Not => crate::runtime::operations::spec_not(rv),
        Operator::Index => crate::runtime::operations::spec_index(lv, rv),
        Operator::Equals | Operator::Nil => Err(ErrV::TypeMismatch),
    }
}

/// What evaluating one expression yields: a value and the state after, or
/// a failure. Every visited node costs one unit of the step budget.
#[verifier::opaque]
pub open spec fn spec_calc(e: ExprV, st: St, fuel: nat) -> Step<Val>
    decreases fuel,
{
    if fuel == 0 {
        Step::Fail(ErrV::StackOverflow)
    } else {
        let f = (fuel - 1) as nat;
        match e {
            ExprV::Literal(v) => match v {
                Val::Var(n) => match scopes_get(st.scopes, n) {
                    Some(x) => Step::Done(x, st),
                    None => Step::Fail(ErrV::UndefinedVariable(n)),
                },
                _ => Step::Done(v, st),
            },
            ExprV::Binary(op, l, r) => match spec_calc(*l, st, f) {
                Step::Fail(e0) => Step::Fail(e0),
                Step::Done(lv, st1) => match spec_calc(*r, st1, f) {
                    Step::Fail(e0) => Step::Fail(e0),
                    Step::Done(rv, st2) => lift(spec_binop(op, lv, rv), st2),
                },
            },
            ExprV::Block(k, conds, frags) => match k {
                BlockType::FormatedString => spec_format(frags, Seq::empty(), st, f),
                BlockType::CommandString => spec_shell(frags, false, st, f),
                _ => Step::Fail(ErrV::TypeMismatch),
            },
            ExprV::Function(k, args, name) => match k {
                FunctionType::Length => match spec_eval_args(args, st, f) {
                    Step::Fail(e0) => Step::Fail(e0),
                    Step::Done(vals, st1) => lift(
                        crate::runtime::functions::spec_run_len(vals),
                        st1,
                    ),
                },
                FunctionType::Defined => if is_builtin_name(name) {
                    match spec_eval_args(args, st, f) {
                        Step::Fail(e0) => Step::Fail(e0),
                        Step::Done(vals, st1) => lift(spec_builtin(name, vals), st1),
                    }
                } else {
                    match spec_user_call(name, args, st, f) {
                        Step::Fail(e0) => Step::Fail(e0),
                        Step::Done(ov, st1) => match ov {
                            Some(v) => Step::Done(v, st1),
                            None => Step::Fail(ErrV::TypeMismatch),
                        },
                    }
                },
                _ => Step::Fail(ErrV::TypeMismatch),
            },
            ExprV::Nil => Step::Done(Val::Nil, st),
            _ => Step::Fail(ErrV::TypeMismatch),
        }
    }
}

/// What evaluating a call's arguments left to right yields.
#[verifier::opaque]
pub open spec fn spec_eval_args(args: Seq<ExprV>, st: St, fuel: nat) -> Step<Seq<Val>>
    decreases fuel,
{
    if fuel == 0 {
        Step::Fail(ErrV::StackOverflow)
    } else {
        let f = (fuel - 1) as nat;
        if args.len() == 0 {
            Step::Done(Seq::empty(), st)
        } else {
            match spec_calc(args[0], st, f) {
                Step::Fail(e0) => Step::Fail(e0),
                Step::Done(v, st1) => match spec_eval_args(args.drop_first(), st1, f) {
                    Step::Fail(e0) => Step::Fail(e0),
                    Step::Done(vs, st2) => Step::Done(seq![v] + vs, st2),
                },
            }
        }
    }
}

/// What calling a user-defined function yields: arguments are evaluated in
/// the caller's scopes, the body runs on a fresh one-frame scope stack with
/// the parameters bound by position, and the caller's scopes come back
/// unchanged. An unknown name fails with `UndefinedFunction`; a wrong
/// argument count with `ArityMismatch`.
#[verifier::opaque]
pub open spec fn spec_user_call(name: Seq<char>, args: Seq<ExprV>, st: St, fuel: nat) -> Step<
    Option<Val>,
>
    decreases fuel,
{
    if fuel == 0 {
        Step::Fail(ErrV::StackOverflow)
    } else {
        let f = (fuel - 1) as nat;
        match reg_get(st.funcs, name) {
            None => Step::Fail(ErrV::UndefinedFunction(name)),
            Some(def) => if def.params.len() != args.len() {
                Step::Fail(ErrV::ArityMismatch)
            } else {
                match spec_eval_args(args, st, f) {
                    Step::Fail(e0) => Step::Fail(e0),
                    Step::Done(vals, st1) => {
                        let frame = bind_params(def.params, vals);
                        match spec_run(def.block, 0, false, false, st1.with_scopes(seq![frame]), f) {
                            Step::Fail(e0) => Step::Fail(e0),
                            Step::Done(ov, st2) => Step::Done(ov, st2.with_scopes(st1.scopes)),
                        }
                    },
                }
            },
        }
    }
}

/// What one `if`/`elseif` arm yields: whether its condition held, and the
/// early-returned value if the body returned. The condition and body run in
/// a freshly pushed scope, popped afterwards. A header without exactly one
/// condition is a malformed statement.
#[verifier::opaque]
pub open spec fn spec_run_if(conds: Seq<ExprV>, body: Seq<ExprV>, st: St, fuel: nat) -> Step<
    (bool, Option<Val>),
>
    decreases fuel,
{
    if fuel == 0 {
        Step::Fail(ErrV::StackOverflow)
    } else {
        let f = (fuel - 1) as nat;
        if conds.len() != 1 {
            Step::Fail(ErrV::ParseError)
        } else {
            let st1 = st.with_scopes(st.scopes.push(Seq::empty()));
            match spec_calc(conds[0], st1, f) {
                Step::Fail(e0) => Step::Fail(e0),
                Step::Done(cv, st2) => match cv {
                    Val::Bool(c) => if c {
                        match spec_run(body, 0, false, false, st2, f) {
                            Step::Fail(e0) => Step::Fail(e0),
                            Step::Done(ov, st3) => Step::Done(
                                (true, ov),
                                st3.with_scopes(st3.scopes.drop_last()),
                            ),
                        }
                    } else {
                        Step::Done((false, None), st2.with_scopes(st2.scopes.drop_last()))
                    },
                    _ => Step::Fail(ErrV::TypeMismatch),
                },
            }
        }
    }
}

/// What an `else` body yields, run in a freshly pushed scope.
#[verifier::opaque]
pub open spec fn spec_run_else(body: Seq<ExprV>, st: St, fuel: nat) -> Step<Option<Val>>
    decreases fuel,
{
    if fuel == 0 {
        Step::Fail(ErrV::StackOverflow)
    } else {
        let f = (fuel - 1) as nat;
        let st1 = st.with_scopes(st.scopes.push(Seq::empty()));
        match spec_run(body, 0, false, false, st1, f) {
            Step::Fail(e0) => Step::Fail(e0),
            Step::Done(ov, st2) => Step::Done(ov, st2.with_scopes(st2.scopes.drop_last())),
        }
    }
}

/// What a `return` statement returns: the nil value for a bare `return`,
/// else its first expression's value.
#[verifier::opaque]
pub open spec fn spec_run_return(body: Seq<ExprV>, st: St, fuel: nat) -> Step<Val>
    decreases fuel,
{
    if fuel == 0 {
        Step::Fail(ErrV::StackOverflow)
    } else {
        let f = (fuel - 1) as nat;
        if body.len() == 0 {
            Step::Done(Val::Nil, st)
        } else {
            spec_calc(body[0], st, f)
        }
    }
}

/// What an increment or decrement updater yields: the named variable's
/// current value plus or minus one (not yet written back).
#[verifier::opaque]
pub open spec fn spec_calc_un(e: ExprV, st: St, fuel: nat) -> Step<Val> {
    if fuel == 0 {
        Step::Fail(ErrV::StackOverflow)
    } else {
        match e {
            ExprV::Unary(op, operand) => match *operand {
                ExprV::Literal(Val::Var(n)) => match scopes_get(st.scopes, n) {
                    None => Step::Fail(ErrV::UndefinedVariable(n)),
                    Some(v) => match op {
                        Operator::Plus => lift(
                            crate::runtime::operations::spec_add(v, Val::Int(1)),
                            st,
                        ),
                        Operator::Minus => lift(
                            crate::runtime::operations::spec_subtract(v, Val::Int(1)),
                            st,
                        ),
                        _ => Step::Fail(ErrV::TypeMismatch),
                    },
                },
                _ => Step::Fail(ErrV::ParseError),
            },
            _ => Step::Fail(ErrV::ParseError),
        }
    }
}

/// What rendering one value as text yields. Scalars render directly; an
/// array renders as `[ v1; v2; ]` with each element expression evaluated
/// and rendered in turn.
#[verifier::opaque]
pub open spec fn spec_render(v: Val, st: St, fuel: nat) -> Step<Seq<char>>
    decreases fuel,
{
    if fuel == 0 {
        Step::Fail(ErrV::StackOverflow)
    } else {
        let f = (fuel - 1) as nat;
        match v {
            Val::Arr(es) => spec_render_arr(es, "[ "@, st, f),
            _ => Step::Done(crate::runtime::values::render_scalar(v), st),
        }
    }
}

/// Renders the elements of an array one by one onto `acc`, closing with
/// `]`.
#[verifier::opaque]
pub open spec fn spec_render_arr(es: Seq<ExprV>, acc: Seq<char>, st: St, fuel: nat) -> Step<
    Seq<char>,
>
    decreases fuel,
{
    if fuel == 0 {
        Step::Fail(ErrV::StackOverflow)
    } else {
        let f = (fuel - 1) as nat;
        if es.len() == 0 {
            Step::Done(acc + "]"@, st)
        } else {
            match spec_calc(es[0], st, f) {
                Step::Fail(e0) => Step::Fail(e0),
                Step::Done(v, st1) => match spec_render(v, st1, f) {
                    Step::Fail(e0) => Step::Fail(e0),
                    Step::Done(txt, st2) => spec_render_arr(
                        es.drop_first(),
                        acc + txt + "; "@,
                        st2,
                        f,
                    ),
                },
            }
        }
    }
}

/// What interpolating a format or command string yields: each fragment is
/// evaluated and rendered, and the texts are concatenated in order onto
/// `acc`.
#[verifier::opaque]
pub open spec fn spec_format(frags: Seq<ExprV>, acc: Seq<char>, st: St, fuel: nat) -> Step<Val>
    decreases fuel,
{
    if fuel == 0 {
        Step::Fail(ErrV::StackOverflow)
    } else {
        let f = (fuel - 1) as nat;
        if frags.len() == 0 {
            Step::Done(Val::Str(acc), st)
        } else {
            match spec_calc(frags[0], st, f) {
                Step::Fail(e0) => Step::Fail(e0),
                Step::Done(v, st1) => match spec_render(v, st1, f) {
                    Step::Fail(e0) => Step::Fail(e0),
                    Step::Done(txt, st2) => spec_format(frags.drop_first(), acc + txt, st2, f),
                },
            }
        }
    }
}

/// What a command string yields: the interpolated command's logged output.
/// The next host reply must be a shell reply; otherwise the run stops with
/// a request for this command. With `echo` the output is also appended to
/// the program output.
#[verifier::opaque]
pub open spec fn spec_shell(frags: Seq<ExprV>, echo: bool, st: St, fuel: nat) -> Step<Val>
    decreases fuel,
{
    if fuel == 0 {
        Step::Fail(ErrV::StackOverflow)
    } else {
        let f = (fuel - 1) as nat;
        match spec_format(frags, Seq::empty(), st, f) {
            Step::Fail(e0) => Step::Fail(e0),
            Step::Done(v, st1) => match v {
                Val::Str(cmd) => if 0 <= st1.used < st1.replies.len() {
                    match st1.replies[st1.used] {
                        Hv::Shell(out) => Step::Done(
                            Val::Str(out),
                            St {
                                used: st1.used + 1,
                                out: if echo {
                                    st1.out + out
                                } else {
                                    st1.out
                                },
                                ..st1
                            },
                        ),
                        _ => Step::Fail(ErrV::ShellRequest(cmd)),
                    }
                } else {
                    Step::Fail(ErrV::ShellRequest(cmd))
                },
                _ => Step::Fail(ErrV::TypeMismatch),
            },
        }
    }
}

/// What an `import` statement does: for each named module, the next host
/// reply must hold the module's parsed tree, whose top-level statements run
/// against a fresh local scope stack, registering their definitions into
/// the shared registry. A missing module fails with `ImportNotFound`; a
/// module not yet in the log stops the run with a request for it.
#[verifier::opaque]
pub open spec fn spec_import(libs: Seq<ExprV>, st: St, fuel: nat) -> Step<Option<Val>>
    decreases fuel,
{
    if fuel == 0 {
        Step::Fail(ErrV::StackOverflow)
    } else {
        let f = (fuel - 1) as nat;
        if libs.len() == 0 {
            Step::Done(None, st)
        } else {
            match libs[0] {
                ExprV::Literal(Val::Var(n)) => if 0 <= st.used < st.replies.len() {
                    match st.replies[st.used] {
                        Hv::Module(Some(tree)) => {
                            let st1 = St { used: st.used + 1, ..st };
                            match spec_run(
                                tree,
                                0,
                                false,
                                false,
                                st1.with_scopes(seq![Seq::empty()]),
                                f,
                            ) {
                                Step::Fail(e0) => Step::Fail(e0),
                                Step::Done(_, st2) => spec_import(
                                    libs.drop_first(),
                                    st2.with_scopes(st1.scopes),
                                    f,
                                ),
                            }
                        },
                        Hv::Module(None) => Step::Fail(ErrV::ImportNotFound(n)),
                        _ => Step::Fail(ErrV::ImportRequest(n)),
                    }
                } else {
                    Step::Fail(ErrV::ImportRequest(n))
                },
                _ => Step::Fail(ErrV::ParseError),
            }
        }
    }
}

/// What `print` does: each argument is evaluated, rendered, and appended
/// to the program output with a newline.
#[verifier::opaque]
pub open spec fn spec_print(args: Seq<ExprV>, st: St, fuel: nat) -> Step<Option<Val>>
    decreases fuel,
{
    if fuel == 0 {
        Step::Fail(ErrV::StackOverflow)
    } else {
        let f = (fuel - 1) as nat;
        if args.len() == 0 {
            Step::Done(None, st)
        } else {
            match spec_calc(args[0], st, f) {
                Step::Fail(e0) => Step::Fail(e0),
                Step::Done(v, st1) => match spec_render(v, st1, f) {
                    Step::Fail(e0) => Step::Fail(e0),
                    Step::Done(txt, st2) => spec_print(
                        args.drop_first(),
                        St { out: st2.out + txt + "\n"@, ..st2 },
                        f,
                    ),
                },
            }
        }
    }
}

/// One iteration round of a condition-only `for` loop: test, run the body,
/// repeat. The second component counts completed body runs.
#[verifier::opaque]
pub open spec fn spec_for_while(cond: ExprV, body: Seq<ExprV>, st: St, fuel: nat) -> (Step<
    Option<Val>,
>, nat)
    decreases fuel,
{
    if fuel == 0 {
        (Step::Fail(ErrV::StackOverflow), 0)
    } else {
        let f = (fuel - 1) as nat;
        match spec_calc(cond, st, f) {
            Step::Fail(e0) => (Step::Fail(e0), 0),
            Step::Done(cv, st1) => match cv {
                Val::Bool(c) => if !c {
                    (Step::Done(None, st1), 0)
                } else {
                    match spec_run(body, 0, false, false, st1, f) {
                        Step::Fail(e0) => (Step::Fail(e0), 0),
                        Step::Done(Some(v), st2) => (Step::Done(Some(v), st2), 1),
                        Step::Done(None, st2) => {
                            let (r, n0) = spec_for_while(cond, body, st2, f);
                            (r, n0 + 1)
                        },
                    }
                },
                _ => (Step::Fail(ErrV::TypeMismatch), 0),
            },
        }
    }
}

/// One iteration round of a three-part `for` loop whose condition has just
/// held: run the body, apply the updater and rebind the iterator in the
/// loop's own scope, retest. The second component counts completed body
/// runs.
#[verifier::opaque]
pub open spec fn spec_for_three(
    cond: ExprV,
    body: Seq<ExprV>,
    upd: ExprV,
    st: St,
    fuel: nat,
) -> (Step<Option<Val>>, nat)
    decreases fuel,
{
    if fuel == 0 {
        (Step::Fail(ErrV::StackOverflow), 0)
    } else {
        let f = (fuel - 1) as nat;
        match spec_run(body, 0, false, false, st, f) {
            Step::Fail(e0) => (Step::Fail(e0), 0),
            Step::Done(Some(v), st1) => (Step::Done(Some(v), st1), 1),
            Step::Done(None, st1) => match spec_apply_update(upd, st1, f) {
                Step::Fail(e0) => (Step::Fail(e0), 1),
                Step::Done(_, st2) => match spec_calc(cond, st2, f) {
                    Step::Fail(e0) => (Step::Fail(e0), 1),
                    Step::Done(cv, st3) => match cv {
                        Val::Bool(c) => if c {
                            let (r, n0) = spec_for_three(cond, body, upd, st3, f);
                            (r, n0 + 1)
                        } else {
                            (Step::Done(None, st3), 1)
                        },
                        _ => (Step::Fail(ErrV::TypeMismatch), 1),
                    },
                },
            },
        }
    }
}

/// Applies a loop updater: an increment or decrement of a variable, or an
/// assignment, written back into the loop's own scope.
#[verifier::opaque]
pub open spec fn spec_apply_update(upd: ExprV, st: St, fuel: nat) -> Step<Option<Val>>
    decreases fuel,
{
    if fuel == 0 {
        Step::Fail(ErrV::StackOverflow)
    } else {
        let f = (fuel - 1) as nat;
        match upd {
            ExprV::Unary(op, operand) => match *operand {
                ExprV::Literal(Val::Var(n)) => match scopes_get(st.scopes, n) {
                    None => Step::Fail(ErrV::UndefinedVariable(n)),
                    Some(v) => match (match op {
                        Operator::Plus => crate::runtime::operations::spec_add(v, Val::Int(1)),
                        Operator::Minus => crate::runtime::operations::spec_subtract(
                            v,
                            Val::Int(1),
                        ),
                        _ => Err(ErrV::TypeMismatch),
                    }) {
                        Ok(nv) => Step::Done(
                            None,
                            st.with_scopes(scopes_set_current(st.scopes, n, nv)),
                        ),
                        Err(e0) => Step::Fail(e0),
                    },
                },
                _ => Step::Fail(ErrV::ParseError),
            },
            ExprV::Binary(op, l, r) => if op == Operator::Equals {
                match *l {
                    ExprV::Literal(Val::Var(n)) => match spec_calc(*r, st, f) {
                        Step::Fail(e0) => Step::Fail(e0),
                        Step::Done(v, st1) => Step::Done(
                            None,
                            st1.with_scopes(scopes_set_current(st1.scopes, n, v)),
                        ),
                    },
                    _ => Step::Fail(ErrV::ParseError),
                }
            } else {
                Step::Fail(ErrV::ParseError)
            },
            _ => Step::Fail(ErrV::ParseError),
        }
    }
}

/// What a `for` statement does. One header expression makes a while-style
/// loop; three make an iterator loop (initialiser, condition, updater),
/// run in one scope pushed for the whole loop. A `return` in the body
/// aborts the loop and propagates. Any other header shape is a malformed
/// statement. The second component counts completed body runs.
#[verifier::opaque]
pub open spec fn spec_run_for(conds: Seq<ExprV>, body: Seq<ExprV>, st: St, fuel: nat) -> (Step<
    Option<Val>,
>, nat)
    decreases fuel,
{
    if fuel == 0 {
        (Step::Fail(ErrV::StackOverflow), 0)
    } else {
        let f = (fuel - 1) as nat;
        let st1 = st.with_scopes(st.scopes.push(Seq::empty()));
        if conds.len() == 1 {
            let (r, n0) = spec_for_while(conds[0], body, st1, f);
            (pop_step(r), n0)
        } else if conds.len() == 3 {
            spec_for_parts(conds[0], conds[1], body, conds[2], st1, f)
        } else {
            (Step::Fail(ErrV::ParseError), 0)
        }
    }
}

/// The three-part loop after its scope is pushed: the initialiser must be
/// an assignment binding the iterator in the loop's own scope; then the
/// condition is tested and the loop rounds run; the loop's scope is popped
/// on the way out.
#[verifier::opaque]
pub open spec fn spec_for_parts(
    init: ExprV,
    cond: ExprV,
    body: Seq<ExprV>,
    upd: ExprV,
    st1: St,
    fuel: nat,
) -> (Step<Option<Val>>, nat)
    decreases fuel,
{
    if fuel == 0 {
        (Step::Fail(ErrV::StackOverflow), 0)
    } else {
        let f = (fuel - 1) as nat;
        match init {
        ExprV::Binary(op, l, rhs) => if op == Operator::Equals {
            match *l {
                ExprV::Literal(Val::Var(key)) => match spec_calc(*rhs, st1, f) {
                    Step::Fail(e0) => (Step::Fail(e0), 0),
                    Step::Done(v0, st2) => {
                        let st3 = st2.with_scopes(scopes_set_current(st2.scopes, key, v0));
                        match spec_calc(cond, st3, f) {
                            Step::Fail(e0) => (Step::Fail(e0), 0),
                            Step::Done(cv, st4) => match cv {
                                Val::Bool(c) => if c {
                                    let (r, n0) = spec_for_three(cond, body, upd, st4, f);
                                    (pop_step(r), n0)
                                } else {
                                    (
                                        Step::Done(None, st4.with_scopes(st4.scopes.drop_last())),
                                        0,
                                    )
                                },
                                _ => (Step::Fail(ErrV::TypeMismatch), 0),
                            },
                        }
                    },
                },
                _ => (Step::Fail(ErrV::ParseError), 0),
            }
        } else {
            (Step::Fail(ErrV::ParseError), 0)
        },
        _ => (Step::Fail(ErrV::ParseError), 0),
    }
    }
}

/// Pops the loop's scope off a finished loop's state.
pub open spec fn pop_step(r: Step<Option<Val>>) -> Step<Option<Val>> {
    match r {
        Step::Done(ov, st) => Step::Done(ov, st.with_scopes(st.scopes.drop_last())),
        Step::Fail(e0) => Step::Fail(e0),
    }
}

/// What running a statement list from statement `i` yields: `None` after
/// the last statement, or the value of the first `return` reached, which
/// unwinds through every enclosing block. `started`/`status` carry the
/// `if`/`elseif`/`else` chain state: whether a chain is open and whether
/// one of its arms has already matched; any statement other than an
/// `if`/`elseif`/`else` closes the chain.
#[verifier::opaque]
pub open spec fn spec_run(
    stmts: Seq<ExprV>,
    i: int,
    started: bool,
    status: bool,
    st: St,
    fuel: nat,
) -> Step<Option<Val>>
    decreases fuel,
{
    if fuel == 0 {
        Step::Fail(ErrV::StackOverflow)
    } else {
        let f = (fuel - 1) as nat;
        if i < 0 || i >= stmts.len() {
            Step::Done(None, st)
        } else {
            match stmts[i] {
                ExprV::Binary(op, l, r) => if op == Operator::Equals {
                    match *l {
                        ExprV::Literal(Val::Var(n)) => match spec_calc(*r, st, f) {
                            Step::Fail(e0) => Step::Fail(e0),
                            Step::Done(v, st1) => spec_run(
                                stmts,
                                i + 1,
                                false,
                                false,
                                st1.with_scopes(scopes_set(st1.scopes, n, v)),
                                f,
                            ),
                        },
                        _ => Step::Fail(ErrV::ParseError),
                    }
                } else {
                    spec_run(stmts, i + 1, false, false, st, f)
                },
                ExprV::Block(k, conds, body) => match k {
                    BlockType::If => match spec_run_if(conds, body, st, f) {
                        Step::Fail(e0) => Step::Fail(e0),
                        Step::Done((c, ov), st1) => match ov {
                            Some(v) => Step::Done(Some(v), st1),
                            None => spec_run(stmts, i + 1, true, c, st1, f),
                        },
                    },
                    BlockType::ElseIf => if started && !status {
                        match spec_run_if(conds, body, st, f) {
                            Step::Fail(e0) => Step::Fail(e0),
                            Step::Done((c, ov), st1) => match ov {
                                Some(v) => Step::Done(Some(v), st1),
                                None => spec_run(stmts, i + 1, true, c, st1, f),
                            },
                        }
                    } else {
                        spec_run(stmts, i + 1, started, status, st, f)
                    },
                    BlockType::Else => if started && !status {
                        match spec_run_else(body, st, f) {
                            Step::Fail(e0) => Step::Fail(e0),
                            Step::Done(ov, st1) => match ov {
                                Some(v) => Step::Done(Some(v), st1),
                                None => spec_run(stmts, i + 1, false, false, st1, f),
                            },
                        }
                    } else {
                        spec_run(stmts, i + 1, false, false, st, f)
                    },
                    BlockType::For => match spec_run_for(conds, body, st, f).0 {
                        Step::Fail(e0) => Step::Fail(e0),
                        Step::Done(ov, st1) => match ov {
                            Some(v) => Step::Done(Some(v), st1),
                            None => spec_run(stmts, i + 1, false, false, st1, f),
                        },
                    },
                    BlockType::FormatedString => match spec_format(body, Seq::empty(), st, f) {
                        Step::Fail(e0) => Step::Fail(e0),
                        Step::Done(_, st1) => spec_run(stmts, i + 1, false, false, st1, f),
                    },
                    BlockType::CommandString => match spec_shell(body, true, st, f) {
                        Step::Fail(e0) => Step::Fail(e0),
                        Step::Done(_, st1) => spec_run(stmts, i + 1, false, false, st1, f),
                    },
                    BlockType::Import => match spec_import(body, st, f) {
                        Step::Fail(e0) => Step::Fail(e0),
                        Step::Done(_, st1) => spec_run(stmts, i + 1, false, false, st1, f),
                    },
                    BlockType::Return => match spec_run_return(body, st, f) {
                        Step::Fail(e0) => Step::Fail(e0),
                        Step::Done(v, st1) => Step::Done(Some(v), st1),
                    },
                    BlockType::Nil => spec_run(stmts, i + 1, false, false, st, f),
                },
                ExprV::Function(k, args, name) => match k {
                    FunctionType::Print => match spec_print(args, st, f) {
                        Step::Fail(e0) => Step::Fail(e0),
                        Step::Done(_, st1) => spec_run(stmts, i + 1, false, false, st1, f),
                    },
                    FunctionType::Length => match spec_eval_args(args, st, f) {
                        Step::Fail(e0) => Step::Fail(e0),
                        Step::Done(vals, st1) => match crate::runtime::functions::spec_run_len(
                            vals,
                        ) {
                            Ok(_) => spec_run(stmts, i + 1, false, false, st1, f),
                            Err(e0) => Step::Fail(e0),
                        },
                    },
                    FunctionType::Defined => if is_builtin_name(name) {
                        match spec_eval_args(args, st, f) {
                            Step::Fail(e0) => Step::Fail(e0),
                            Step::Done(vals, st1) => match spec_builtin(name, vals) {
                                Ok(_) => spec_run(stmts, i + 1, false, false, st1, f),
                                Err(e0) => Step::Fail(e0),
                            },
                        }
                    } else {
                        match spec_user_call(name, args, st, f) {
                            Step::Fail(e0) => Step::Fail(e0),
                            Step::Done(_, st1) => spec_run(stmts, i + 1, false, false, st1, f),
                        }
                    },
                    FunctionType::Nil => spec_run(stmts, i + 1, false, false, st, f),
                },
                ExprV::Definition(d) => spec_run(
                    stmts,
                    i + 1,
                    false,
                    false,
                    St { funcs: reg_set(st.funcs, d.name, d), ..st },
                    f,
                ),
                _ => spec_run(stmts, i + 1, false, false, st, f),
            }
        }
    }
}

/// The denotation of an optional result value.
pub open spec fn opt_val_view(o: Option<DataType>) -> Option<Val> {
    match o {
        Some(d) => Some(dt_view(d)),
        None => None,
    }
}

/// The step a value-returning call denotes: its value at the given final
/// state, or its failure.
pub open spec fn vstep_of(r: Result<DataType, RunError>, st: St) -> Step<Val> {
    match r {
        Ok(d) => Step::Done(dt_view(d), st),
        Err(e) => Step::Fail(err_view(e)),
    }
}

/// The step a statement-list run denotes.
pub open spec fn ostep_of(r: Result<Option<DataType>, RunError>, st: St) -> Step<Option<Val>> {
    match r {
        Ok(ov) => Step::Done(opt_val_view(ov), st),
        Err(e) => Step::Fail(err_view(e)),
    }
}

/// The step an argument-list evaluation denotes.
pub open spec fn astep_of(r: Result<Vec<DataType>, RunError>, st: St) -> Step<Seq<Val>> {
    match r {
        Ok(vals) => Step::Done(crate::runtime::functions::args_view(vals@), st),
        Err(e) => Step::Fail(err_view(e)),
    }
}

/// The step a rendering denotes.
pub open spec fn sstep_of(r: Result<String, RunError>, st: St) -> Step<Seq<char>> {
    match r {
        Ok(s) => Step::Done(s@, st),
        Err(e) => Step::Fail(err_view(e)),
    }
}

/// The step an `if`/`elseif` arm denotes.
pub open spec fn bstep_of(r: Result<(bool, Option<DataType>), RunError>, st: St) -> Step<
    (bool, Option<Val>),
> {
    match r {
        Ok(co) => Step::Done((co.0, opt_val_view(co.1)), st),
        Err(e) => Step::Fail(err_view(e)),
    }
}

/// The step a unit-result statement denotes.
pub open spec fn ustep_of(r: Result<(), RunError>, st: St) -> Step<Option<Val>> {
    match r {
        Ok(u) => Step::Done(None, st),
        Err(e) => Step::Fail(err_view(e)),
    }
}


/// Whether a call name equals the given builtin name.
fn name_is(name: &String, s: &str) -> (b: bool)
    ensures
        b == (name@ == s@),
{
    let t = String::from_str(s);
    *name == t
}

/// A state carrying only a scope stack; the updater reads nothing else.
pub open spec fn st_from_scopes(scopes: Seq<Vec<(String, DataType)>>) -> St {
    St {
        scopes: scopes_view(scopes),
        funcs: Seq::empty(),
        out: Seq::empty(),
        replies: Seq::empty(),
        used: 0,
    }
}

/// Evaluates an increment or decrement updater: the named variable's value
/// plus or minus one. The caller writes the result back.
#[verifier::spinoff_prover]
#[verifier::rlimit(100)]
pub fn calculate_unexpr(in_expr: &Expr, scopes: &Vec<Vec<(String, DataType)>>, fuel: u64) -> (r:
    Result<DataType, RunError>)
    requires
        wf_scopes(scopes@),
    ensures
        r matches Ok(d) ==> wf_dt(d),
        spec_calc_un(expr_view(*in_expr), st_from_scopes(scopes@), fuel as nat) == vstep_of(
            r,
            st_from_scopes(scopes@),
        ),

{
    proof {
        reveal_with_fuel(spec_calc_un, 1);
    }
    if fuel == 0 {
        return Err(RunError::StackOverflow);
    }
    match in_expr {
        Expr::Unary(u) => match &*u.value {
            Expr::Literal(d) => match d.kind {
                Literal::Variable => {
                    let ghost ev = expr_view(*in_expr);
                    let ghost stg = st_from_scopes(scopes@);
                    proof {
                        assert(dt_view(*d) == Val::Var(d.value@));
                        assert(expr_view(*u.value) == ExprV::Literal(Val::Var(d.value@)));
                        assert(ev == ExprV::Unary(
                            u.operator,
                            Box::new(ExprV::Literal(Val::Var(d.value@))),
                        ));
                    }
                    let cur = match get_from_scope(scopes, &d.value) {
                        Ok(c) => c,
                        Err(e) => {
                            proof {
                                assert(scopes_get(stg.scopes, d.value@) is None);
                                assert(spec_calc_un(ev, stg, fuel as nat) == Step::Fail::<Val>(
                                    ErrV::UndefinedVariable(d.value@),
                                ));
                            }
                            return Err(e);
                        },
                    };
                    proof {
                        assert(scopes_get(stg.scopes, d.value@) == Some(dt_view(cur)));
                    }
                    let one = DataType {
                        value: String::new(),
                        kind: Literal::Int,
                        store: DataStore::new(Some(1), None),
                    };
                    proof {
                        assert(dt_view(one) == Val::Int(1));
                    }
                    match u.operator {
                        Operator::Plus => {
                            let res = crate::runtime::operations::add(cur, one);
                            proof {
                                assert(spec_calc_un(ev, stg, fuel as nat) == lift(
                                    crate::runtime::operations::spec_add(
                                        dt_view(cur),
                                        Val::Int(1),
                                    ),
                                    stg,
                                ));
                            }
                            res
                        },
                        Operator::Minus => {
                            let res = crate::runtime::operations::subtract(cur, one);
                            proof {
                                assert(spec_calc_un(ev, stg, fuel as nat) == lift(
                                    crate::runtime::operations::spec_subtract(
                                        dt_view(cur),
                                        Val::Int(1),
                                    ),
                                    stg,
                                ));
                            }
                            res
                        },
                        _ => Err(RunError::TypeMismatch),
                    }
                },
                _ => Err(RunError::ParseError),
            },
            _ => Err(RunError::ParseError),
        },
        _ => Err(RunError::ParseError),
    }
}


/// Applies one binary operator to evaluated operands.
fn apply_binop(op: Operator, left: DataType, right: DataType) -> (r: Result<DataType, RunError>)
    requires
        wf_dt(left),
        wf_dt(right),
    ensures
        crate::runtime::operations::res_view(r) == spec_binop(op, dt_view(left), dt_view(right)),
        r matches Ok(d) ==> wf_dt(d),
{
    match op {
        Operator::Plus => crate::runtime::operations::add(left, right),
        Operator::Minus => crate::runtime::operations::subtract(left, right),
        Operator::Times => crate::runtime::operations::multiply(left, right),
        Operator::Divide => crate::runtime::operations::divide(left, right),
        Operator::EqualTo => crate::runtime::operations::equals(left, right),
        Operator::LesserThan => crate::runtime::operations::lesser(left, right),
        Operator::GreaterThan => crate::runtime::operations::greater(left, right),
        Operator::EqualLesser => crate::runtime::operations::equal_lesser(left, right),
        Operator::EqualGreater => crate::runtime::operations::equal_greater(left, right),
        Operator::NotEqual => crate::runtime::operations::not_equal(left, right),
        Operator::And => crate::runtime::operations::and(left, right),
        Operator::Or => crate::runtime::operations::or(left, right),
        Operator::Not => crate::runtime::operations::not(right),
        Operator::Index => crate::runtime::operations::index(left, right),
        Operator::Equals | Operator::Nil => Err(RunError::TypeMismatch),
    }
}

/// Dispatches a builtin by name on evaluated arguments.
fn run_builtin(name: &String, vals: Vec<DataType>) -> (r: Result<DataType, RunError>)
    requires
        crate::runtime::functions::wf_args(vals@),
        is_builtin_name(name@),
    ensures
        crate::runtime::operations::res_view(r) == spec_builtin(
            name@,
            crate::runtime::functions::args_view(vals@),
        ),
        r matches Ok(d) ==> wf_dt(d),
{
    if name_is(name, "length") {
        crate::runtime::functions::run_len(vals)
    } else if name_is(name, "pop") {
        crate::runtime::functions::run_pop(vals)
    } else if name_is(name, "push") {
        crate::runtime::functions::run_push(vals)
    } else if name_is(name, "swap") {
        crate::runtime::functions::run_swap(vals)
    } else if name_is(name, "delete") {
        crate::runtime::functions::run_delete(vals)
    } else if name_is(name, "int") {
        crate::runtime::functions::run_int(vals)
    } else {
        crate::runtime::functions::run_string(vals)
    }
}

/// Evaluates one expression to a value. Variables resolve through the
/// scope stack; operators fold left to right; format and command strings
/// interpolate; calls dispatch to builtins or user functions. The outcome is
/// exactly what [`spec_calc`] says.
#[verifier::spinoff_prover]
#[verifier::rlimit(100)]
pub fn calculate_bexpr(
    in_expr: &Expr,
    scopes: &Vec<Vec<(String, DataType)>>,
    functions: &mut Vec<(String, Definition)>,
    host: &mut Host,
    fuel: u64,
) -> (r: Result<DataType, RunError>)
    requires
        wf_expr(*in_expr),
        wf_scopes(scopes@),
        wf_reg(old(functions)@),
        wf_replies(old(host).replies@),
    ensures
        wf_reg(final(functions)@),
        final(host).replies@ == old(host).replies@,
        r matches Ok(d) ==> wf_dt(d),
        spec_calc(
            expr_view(*in_expr),
            st_of(scopes@, old(functions)@, *old(host)),
            fuel as nat,
        ) == vstep_of(r, st_of(scopes@, final(functions)@, *final(host))),

    decreases fuel, 1int,
{
    proof {
        reveal_with_fuel(spec_calc, 1);
    }
    if fuel == 0 {
        return Err(RunError::StackOverflow);
    }
    let f = fuel - 1;
    match in_expr {
        Expr::Literal(d) => match d.kind {
            Literal::Variable => get_from_scope(scopes, &d.value),
            _ => Ok(d.clone()),
        },
        Expr::Binary(b) => {
            let lv = match calculate_bexpr(&b.left, scopes, functions, host, f) {
                Ok(x) => x,
                Err(e) => {
                    return Err(e);
                },
            };
            let rv = match calculate_bexpr(&b.right, scopes, functions, host, f) {
                Ok(x) => x,
                Err(e) => {
                    return Err(e);
                },
            };
            apply_binop(b.operator, lv, rv)
        },
        Expr::Block(b) => match b.kind {
            BlockType::FormatedString => format_string(b, scopes, functions, host, f),
            BlockType::CommandString => shell_string(b, scopes, functions, host, false, f),
            _ => Err(RunError::TypeMismatch),
        },
        Expr::Function(fc) => {
            proof {
                assert(expr_view(*in_expr) == ExprV::Function(
                    fc.kind,
                    exprs_view(fc.arguments@),
                    fc.name@,
                ));
            }
            calc_call(fc, scopes, functions, host, fuel)
        },
        Expr::Nil => Ok(DataType::new()),
        _ => Err(RunError::TypeMismatch),
    }
}

/// Evaluates a call in expression position: `length` and the named
/// builtins on their evaluated arguments, a user call's returned value
/// (an error when it returns none), and a failure for anything else.
#[verifier::spinoff_prover]
#[verifier::rlimit(100)]
fn calc_call(
    fc: &Function,
    scopes: &Vec<Vec<(String, DataType)>>,
    functions: &mut Vec<(String, Definition)>,
    host: &mut Host,
    fuel: u64,
) -> (r: Result<DataType, RunError>)
    requires
        wf_exprs(fc.arguments@),
        wf_scopes(scopes@),
        wf_reg(old(functions)@),
        wf_replies(old(host).replies@),
    ensures
        wf_reg(final(functions)@),
        final(host).replies@ == old(host).replies@,
        r matches Ok(d) ==> wf_dt(d),
        spec_calc(
            ExprV::Function(fc.kind, exprs_view(fc.arguments@), fc.name@),
            st_of(scopes@, old(functions)@, *old(host)),
            fuel as nat,
        ) == vstep_of(r, st_of(scopes@, final(functions)@, *final(host))),

    decreases fuel, 0int,
{
    proof {
        reveal_with_fuel(spec_calc, 1);
    }
    if fuel == 0 {
        return Err(RunError::StackOverflow);
    }
    let f = fuel - 1;
    proof {
        assert(exprs_view(fc.arguments@).skip(0) =~= exprs_view(fc.arguments@));
    }
    match fc.kind {
        FunctionType::Length => {
            let vals = match eval_args(&fc.arguments, 0, scopes, functions, host, f) {
                Ok(x) => x,
                Err(e) => {
                    return Err(e);
                },
            };
            crate::runtime::functions::run_len(vals)
        },
        FunctionType::Defined => {
            let builtin = name_is(&fc.name, "length") || name_is(&fc.name, "pop") || name_is(
                &fc.name,
                "push",
            ) || name_is(&fc.name, "swap") || name_is(&fc.name, "delete") || name_is(
                &fc.name,
                "int",
            ) || name_is(&fc.name, "string");
            if builtin {
                let vals = match eval_args(&fc.arguments, 0, scopes, functions, host, f) {
                    Ok(x) => x,
                    Err(e) => {
                        return Err(e);
                    },
                };
                run_builtin(&fc.name, vals)
            } else {
                match run_function(fc, scopes, functions, host, f) {
                    Ok(Some(d)) => Ok(d),
                    Ok(None) => Err(RunError::TypeMismatch),
                    Err(e) => Err(e),
                }
            }
        },
        _ => Err(RunError::TypeMismatch),
    }
}

/// Evaluates a call's arguments from position `start` on, left to right.
#[verifier::spinoff_prover]
#[verifier::rlimit(100)]
fn eval_args(
    args: &Vec<Expr>,
    start: usize,
    scopes: &Vec<Vec<(String, DataType)>>,
    functions: &mut Vec<(String, Definition)>,
    host: &mut Host,
    fuel: u64,
) -> (r: Result<Vec<DataType>, RunError>)
    requires
        wf_exprs(args@),
        start <= args@.len(),
        wf_scopes(scopes@),
        wf_reg(old(functions)@),
        wf_replies(old(host).replies@),
    ensures
        wf_reg(final(functions)@),
        final(host).replies@ == old(host).replies@,
        r matches Ok(vals) ==> vals@.len() == args@.len() - start
            && crate::runtime::functions::wf_args(vals@),
        spec_eval_args(
            exprs_view(args@).skip(start as int),
            st_of(scopes@, old(functions)@, *old(host)),
            fuel as nat,
        ) == astep_of(r, st_of(scopes@, final(functions)@, *final(host))),

    decreases fuel, 0int,
{
    proof {
        reveal_with_fuel(spec_eval_args, 1);
    }
    proof {
        lemma_exprs_view(args@);
    }
    if fuel == 0 {
        return Err(RunError::StackOverflow);
    }
    let f = fuel - 1;
    if start >= args.len() {
        let out: Vec<DataType> = Vec::new();
        proof {
            assert(exprs_view(args@).skip(start as int) =~= Seq::<ExprV>::empty());
            assert(crate::runtime::functions::args_view(out@) =~= Seq::<Val>::empty());
        }
        return Ok(out);
    }
    proof {
        assert(exprs_view(args@).skip(start as int)[0] == expr_view(args@[start as int]));
        assert(exprs_view(args@).skip(start as int).drop_first() =~= exprs_view(args@).skip(
            start + 1,
        ));
    }
    let v = match calculate_bexpr(&args[start], scopes, functions, host, f) {
        Ok(x) => x,
        Err(e) => {
            return Err(e);
        },
    };
    let mut rest = match eval_args(args, start + 1, scopes, functions, host, f) {
        Ok(x) => x,
        Err(e) => {
            return Err(e);
        },
    };
    let ghost rest_pre = rest@;
    let mut out: Vec<DataType> = Vec::new();
    out.push(v);
    out.append(&mut rest);
    proof {
        assert(out@ =~= seq![v] + rest_pre);
        crate::runtime::functions::lemma_args_view(out@);
        crate::runtime::functions::lemma_args_view(rest_pre);
        assert forall|j: int|
            0 <= j < out@.len() implies crate::runtime::functions::args_view(out@)[j] == (
        seq![dt_view(v)] + crate::runtime::functions::args_view(rest_pre))[j] by {
            assert(crate::runtime::functions::args_view(out@)[j] == dt_view(out@[j]));
            if j > 0 {
                assert(out@[j] == rest_pre[j - 1]);
                assert(crate::runtime::functions::args_view(rest_pre)[j - 1] == dt_view(
                    rest_pre[j - 1],
                ));
            }
        }
        assert(crate::runtime::functions::args_view(out@) =~= seq![dt_view(v)]
            + crate::runtime::functions::args_view(rest_pre));
    }
    Ok(out)
}

/// Renders one evaluated value as text.
#[verifier::spinoff_prover]
#[verifier::rlimit(100)]
fn render_value(
    d: &DataType,
    scopes: &Vec<Vec<(String, DataType)>>,
    functions: &mut Vec<(String, Definition)>,
    host: &mut Host,
    fuel: u64,
) -> (r: Result<String, RunError>)
    requires
        wf_dt(*d),
        wf_scopes(scopes@),
        wf_reg(old(functions)@),
        wf_replies(old(host).replies@),
    ensures
        wf_reg(final(functions)@),
        final(host).replies@ == old(host).replies@,
        spec_render(
            dt_view(*d),
            st_of(scopes@, old(functions)@, *old(host)),
            fuel as nat,
        ) == sstep_of(r, st_of(scopes@, final(functions)@, *final(host))),

    decreases fuel, 0int,
{
    proof {
        reveal_with_fuel(spec_render, 1);
    }
    if fuel == 0 {
        return Err(RunError::StackOverflow);
    }
    let f = fuel - 1;
    match d.kind {
        Literal::Array => match &d.store.array {
            Some(es) => {
                proof {
                    assert(exprs_view(es@).skip(0) =~= exprs_view(es@));
                }
                render_arr(es, 0, String::from_str("[ "), scopes, functions, host, f)
            },
            None => {
                proof {
                    assert(false);
                }
                Err(RunError::TypeMismatch)
            },
        },
        Literal::Int => {
            let i = match d.store.integer {
                Some(i) => i,
                None => 0,
            };
            Ok(crate::runtime::values::int_to_string(i))
        },
        Literal::Bool => {
            let b = match d.store.boolean {
                Some(b) => b,
                None => false,
            };
            if b {
                Ok(String::from_str("true"))
            } else {
                Ok(String::from_str("false"))
            }
        },
        Literal::String | Literal::Variable => Ok(d.value.clone()),
        Literal::Nil => Ok(String::new()),
    }
}

/// Renders the elements of an array from position `start` on, onto `acc`.
#[verifier::spinoff_prover]
#[verifier::rlimit(100)]
fn render_arr(
    es: &Vec<Expr>,
    start: usize,
    acc: String,
    scopes: &Vec<Vec<(String, DataType)>>,
    functions: &mut Vec<(String, Definition)>,
    host: &mut Host,
    fuel: u64,
) -> (r: Result<String, RunError>)
    requires
        wf_exprs(es@),
        start <= es@.len(),
        wf_scopes(scopes@),
        wf_reg(old(functions)@),
        wf_replies(old(host).replies@),
    ensures
        wf_reg(final(functions)@),
        final(host).replies@ == old(host).replies@,
        spec_render_arr(
            exprs_view(es@).skip(start as int),
            acc@,
            st_of(scopes@, old(functions)@, *old(host)),
            fuel as nat,
        ) == sstep_of(r, st_of(scopes@, final(functions)@, *final(host))),

    decreases fuel, 0int,
{
    proof {
        reveal_with_fuel(spec_render_arr, 1);
    }
    proof {
        lemma_exprs_view(es@);
    }
    if fuel == 0 {
        return Err(RunError::StackOverflow);
    }
    let f = fuel - 1;
    let mut acc = acc;
    if start >= es.len() {
        proof {
            assert(exprs_view(es@).skip(start as int) =~= Seq::<ExprV>::empty());
        }
        acc.append("]");
        return Ok(acc);
    }
    proof {
        assert(exprs_view(es@).skip(start as int)[0] == expr_view(es@[start as int]));
        assert(exprs_view(es@).skip(start as int).drop_first() =~= exprs_view(es@).skip(
            start + 1,
        ));
    }
    let v = match calculate_bexpr(&es[start], scopes, functions, host, f) {
        Ok(x) => x,
        Err(e) => {
            return Err(e);
        },
    };
    let txt = match render_value(&v, scopes, functions, host, f) {
        Ok(x) => x,
        Err(e) => {
            return Err(e);
        },
    };
    acc.append(txt.as_str());
    acc.append("; ");
    render_arr(es, start + 1, acc, scopes, functions, host, f)
}

/// Interpolates format-string fragments from position `start` on, onto
/// `acc`.
#[verifier::spinoff_prover]
#[verifier::rlimit(100)]
fn format_go(
    frags: &Vec<Expr>,
    start: usize,
    acc: String,
    scopes: &Vec<Vec<(String, DataType)>>,
    functions: &mut Vec<(String, Definition)>,
    host: &mut Host,
    fuel: u64,
) -> (r: Result<String, RunError>)
    requires
        wf_exprs(frags@),
        start <= frags@.len(),
        wf_scopes(scopes@),
        wf_reg(old(functions)@),
        wf_replies(old(host).replies@),
    ensures
        wf_reg(final(functions)@),
        final(host).replies@ == old(host).replies@,
        spec_format(
            exprs_view(frags@).skip(start as int),
            acc@,
            st_of(scopes@, old(functions)@, *old(host)),
            fuel as nat,
        ) == (match r {
            Ok(s) => Step::Done(Val::Str(s@), st_of(scopes@, final(functions)@, *final(host))),
            Err(e) => Step::Fail::<Val>(err_view(e)),
        }),

    decreases fuel, 0int,
{
    proof {
        reveal_with_fuel(spec_format, 1);
    }
    proof {
        lemma_exprs_view(frags@);
    }
    if fuel == 0 {
        return Err(RunError::StackOverflow);
    }
    let f = fuel - 1;
    let mut acc = acc;
    if start >= frags.len() {
        proof {
            assert(exprs_view(frags@).skip(start as int) =~= Seq::<ExprV>::empty());
        }
        return Ok(acc);
    }
    proof {
        assert(exprs_view(frags@).skip(start as int)[0] == expr_view(frags@[start as int]));
        assert(exprs_view(frags@).skip(start as int).drop_first() =~= exprs_view(frags@).skip(
            start + 1,
        ));
    }
    let v = match calculate_bexpr(&frags[start], scopes, functions, host, f) {
        Ok(x) => x,
        Err(e) => {
            return Err(e);
        },
    };
    let txt = match render_value(&v, scopes, functions, host, f) {
        Ok(x) => x,
        Err(e) => {
            return Err(e);
        },
    };
    acc.append(txt.as_str());
    format_go(frags, start + 1, acc, scopes, functions, host, f)
}

/// Interpolates a format string: each fragment is evaluated, rendered and
/// concatenated in order, yielding one string value.
#[verifier::spinoff_prover]
#[verifier::rlimit(100)]
pub fn format_string(
    expr: &Block,
    scopes: &Vec<Vec<(String, DataType)>>,
    functions: &mut Vec<(String, Definition)>,
    host: &mut Host,
    fuel: u64,
) -> (r: Result<DataType, RunError>)
    requires
        wf_exprs(expr.block@),
        wf_scopes(scopes@),
        wf_reg(old(functions)@),
        wf_replies(old(host).replies@),
    ensures
        wf_reg(final(functions)@),
        final(host).replies@ == old(host).replies@,
        r matches Ok(d) ==> wf_dt(d),
        spec_format(
            exprs_view(expr.block@),
            Seq::empty(),
            st_of(scopes@, old(functions)@, *old(host)),
            fuel as nat,
        ) == vstep_of(r, st_of(scopes@, final(functions)@, *final(host))),

    decreases fuel, 1int,
{
    proof {
        assert(exprs_view(expr.block@).skip(0) =~= exprs_view(expr.block@));
    }
    match format_go(&expr.block, 0, String::new(), scopes, functions, host, fuel) {
        Ok(s) => Ok(crate::runtime::operations::string_result(s)),
        Err(e) => Err(e),
    }
}

/// Evaluates a command string: interpolates the command text and takes its
/// captured output from the host's reply log, echoing it to the program
/// output when asked. When the log holds no reply for it yet, fails with a
/// request naming the command, so the host can run it and retry.
#[verifier::spinoff_prover]
#[verifier::rlimit(100)]
pub fn shell_string(
    expr: &Block,
    scopes: &Vec<Vec<(String, DataType)>>,
    functions: &mut Vec<(String, Definition)>,
    host: &mut Host,
    echo: bool,
    fuel: u64,
) -> (r: Result<DataType, RunError>)
    requires
        wf_exprs(expr.block@),
        wf_scopes(scopes@),
        wf_reg(old(functions)@),
        wf_replies(old(host).replies@),
    ensures
        wf_reg(final(functions)@),
        final(host).replies@ == old(host).replies@,
        r matches Ok(d) ==> wf_dt(d),
        spec_shell(
            exprs_view(expr.block@),
            echo,
            st_of(scopes@, old(functions)@, *old(host)),
            fuel as nat,
        ) == vstep_of(r, st_of(scopes@, final(functions)@, *final(host))),

    decreases fuel, 0int,
{
    proof {
        reveal_with_fuel(spec_shell, 1);
    }
    if fuel == 0 {
        return Err(RunError::StackOverflow);
    }
    let f = fuel - 1;
    proof {
        assert(exprs_view(expr.block@).skip(0) =~= exprs_view(expr.block@));
    }
    let cmd = match format_go(&expr.block, 0, String::new(), scopes, functions, host, f) {
        Ok(s) => s,
        Err(e) => {
            return Err(e);
        },
    };
    proof {
        lemma_replies_view(host.replies@);
    }
    if host.used < host.replies.len() {
        let is_shell: Option<String> = match &host.replies[host.used] {
            Reply::Shell(s) => Some(s.clone()),
            _ => None,
        };
        match is_shell {
            Some(out) => {
                host.used = host.used + 1;
                if echo {
                    host.output.append(out.as_str());
                }
                Ok(crate::runtime::operations::string_result(out))
            },
            None => Err(RunError::ShellRequest(cmd)),
        }
    } else {
        Err(RunError::ShellRequest(cmd))
    }
}


/// The parameter frame of one call: parameter names bound by position to
/// the evaluated argument values.
fn bind_call_frame(def: &Definition, vals: &Vec<DataType>) -> (frame: Vec<(String, DataType)>)
    requires
        def.arguments@.len() == vals@.len(),
        crate::runtime::functions::wf_args(vals@),
    ensures
        wf_frame(frame@),
        frame_view(frame@) == bind_params(
            strs_view(def.arguments@),
            crate::runtime::functions::args_view(vals@),
        ),
{
    let mut frame: Vec<(String, DataType)> = Vec::new();
    let n = def.arguments.len();
    let mut k: usize = 0;
    proof {
        assert(strs_view(def.arguments@).take(0) =~= Seq::<Seq<char>>::empty());
        assert(crate::runtime::functions::args_view(vals@).take(0) =~= Seq::<Val>::empty());
        assert(frame_view(frame@) =~= Seq::<(Seq<char>, Val)>::empty());
    }
    while k < n
        invariant
            k <= n,
            n == def.arguments@.len(),
            n == vals@.len(),
            crate::runtime::functions::wf_args(vals@),
            wf_frame(frame@),
            frame_view(frame@) == bind_params(
                strs_view(def.arguments@).take(k as int),
                crate::runtime::functions::args_view(vals@).take(k as int),
            ),
        decreases n - k,
    {
        proof {
            lemma_strs_view(def.arguments@);
            crate::runtime::functions::lemma_args_view(vals@);
            assert(strs_view(def.arguments@).take(k + 1).drop_last() =~= strs_view(
                def.arguments@,
            ).take(k as int));
            assert(crate::runtime::functions::args_view(vals@).take(k + 1).drop_last()
                =~= crate::runtime::functions::args_view(vals@).take(k as int));
            assert(strs_view(def.arguments@).take(k + 1).last() == def.arguments@[k as int]@);
            assert(crate::runtime::functions::args_view(vals@).take(k + 1).last() == dt_view(
                vals@[k as int],
            ));
            assert(wf_dt(vals@[k as int]));
        }
        let item = vals[k].clone();
        let nf = frame_stored(&frame, &def.arguments[k], item);
        frame = nf;
        k += 1;
    }
    proof {
        lemma_strs_view(def.arguments@);
        crate::runtime::functions::lemma_args_view(vals@);
        assert(strs_view(def.arguments@).take(n as int) =~= strs_view(def.arguments@));
        assert(crate::runtime::functions::args_view(vals@).take(n as int)
            =~= crate::runtime::functions::args_view(vals@));
    }
    frame
}

/// Calls a user-defined function: arguments are evaluated in the caller's
/// scopes, then the body runs on a fresh one-frame scope stack with the
/// parameters bound by position — callees see no caller locals. Returns
/// the `return`ed value, if any. Unknown names fail with
/// `UndefinedFunction`, a wrong argument count with `ArityMismatch`.
#[verifier::spinoff_prover]
#[verifier::rlimit(100)]
#[verifier::loop_isolation(false)]
pub fn run_function(
    call: &Function,
    scopes: &Vec<Vec<(String, DataType)>>,
    functions: &mut Vec<(String, Definition)>,
    host: &mut Host,
    fuel: u64,
) -> (r: Result<Option<DataType>, RunError>)
    requires
        wf_exprs(call.arguments@),
        wf_scopes(scopes@),
        wf_reg(old(functions)@),
        wf_replies(old(host).replies@),
    ensures
        wf_reg(final(functions)@),
        final(host).replies@ == old(host).replies@,
        r matches Ok(ov) ==> (ov matches Some(d) ==> wf_dt(d)),
        spec_user_call(
            call.name@,
            exprs_view(call.arguments@),
            st_of(scopes@, old(functions)@, *old(host)),
            fuel as nat,
        ) == ostep_of(r, st_of(scopes@, final(functions)@, *final(host))),

    decreases fuel, 0int,
{
    proof {
        reveal_with_fuel(spec_user_call, 1);
    }
    if fuel == 0 {
        return Err(RunError::StackOverflow);
    }
    let f = fuel - 1;
    let ghost argsv = exprs_view(call.arguments@);
    let ghost st0 = st_of(scopes@, functions@, *host);
    let def = match reg_lookup(functions, &call.name) {
        Some(d) => d,
        None => {
            proof {
                assert(spec_user_call(call.name@, argsv, st0, fuel as nat)
                    == Step::Fail::<Option<Val>>(ErrV::UndefinedFunction(call.name@)));
            }
            return Err(RunError::UndefinedFunction(call.name.clone()));
        },
    };
    proof {
        lemma_strs_view(def.arguments@);
        lemma_exprs_view(call.arguments@);
    }
    if def.arguments.len() != call.arguments.len() {
        proof {
            assert(spec_user_call(call.name@, argsv, st0, fuel as nat)
                == Step::Fail::<Option<Val>>(ErrV::ArityMismatch));
        }
        return Err(RunError::ArityMismatch);
    }
    let vals = match eval_args(&call.arguments, 0, scopes, functions, host, f) {
        Ok(x) => x,
        Err(e) => {
            proof {
                assert(argsv.skip(0) =~= argsv);
                assert(spec_user_call(call.name@, argsv, st0, fuel as nat)
                    == Step::Fail::<Option<Val>>(err_view(e)));
            }
            return Err(e);
        },
    };
    proof {
        assert(exprs_view(call.arguments@).skip(0) =~= exprs_view(call.arguments@));
        crate::runtime::functions::lemma_args_view(vals@);
    }
    let frame = bind_call_frame(&def, &vals);
    let ghost framev = frame@;
    let mut callee_scopes: Vec<Vec<(String, DataType)>> = Vec::new();
    callee_scopes.push(frame);
    proof {
        lemma_scopes_view(callee_scopes@);
        assert(scopes_view(callee_scopes@) =~= seq![frame_view(callee_scopes@[0]@)]);
    }
    let ghost st1 = st_of(scopes@, functions@, *host);
    proof {
        assert(argsv.skip(0) =~= argsv);
        lemma_scopes_view(callee_scopes@);
        assert(scopes_view(callee_scopes@) =~= seq![frame_view(callee_scopes@[0]@)]);
        assert(wf_scopes(callee_scopes@)) by {
            assert(callee_scopes@[0]@ == framev);
        }
    }
    match run(&def.block, &mut callee_scopes, functions, host, f) {
        Ok(ov) => {
            proof {
                assert(spec_user_call(call.name@, argsv, st0, fuel as nat) == Step::Done(
                    opt_val_view(ov),
                    st_of(scopes@, functions@, *host),
                ));
            }
            Ok(ov)
        },
        Err(e) => {
            proof {
                assert(spec_user_call(call.name@, argsv, st0, fuel as nat)
                    == Step::Fail::<Option<Val>>(err_view(e)));
            }
            Err(e)
        },
    }
}

/// Evaluates a `return` statement's value: nil for a bare `return`.
#[verifier::spinoff_prover]
#[verifier::rlimit(100)]
pub fn run_return(
    expr: &Block,
    scopes: &Vec<Vec<(String, DataType)>>,
    functions: &mut Vec<(String, Definition)>,
    host: &mut Host,
    fuel: u64,
) -> (r: Result<DataType, RunError>)
    requires
        wf_exprs(expr.block@),
        wf_scopes(scopes@),
        wf_reg(old(functions)@),
        wf_replies(old(host).replies@),
    ensures
        wf_reg(final(functions)@),
        final(host).replies@ == old(host).replies@,
        r matches Ok(d) ==> wf_dt(d),
        spec_run_return(
            exprs_view(expr.block@),
            st_of(scopes@, old(functions)@, *old(host)),
            fuel as nat,
        ) == vstep_of(r, st_of(scopes@, final(functions)@, *final(host))),

    decreases fuel, 0int,
{
    proof {
        reveal_with_fuel(spec_run_return, 1);
    }
    if fuel == 0 {
        return Err(RunError::StackOverflow);
    }
    let f = fuel - 1;
    proof {
        lemma_exprs_view(expr.block@);
    }
    if expr.block.len() == 0 {
        Ok(DataType::new())
    } else {
        calculate_bexpr(&expr.block[0], scopes, functions, host, f)
    }
}

/// Runs one `if`/`elseif` arm: evaluates its single condition in a freshly
/// pushed scope, runs the body when it holds, pops the scope, and reports
/// whether the condition held plus any early-returned value.
#[verifier::spinoff_prover]
#[verifier::rlimit(100)]
pub fn run_if(
    expr: &Block,
    scopes: &mut Vec<Vec<(String, DataType)>>,
    functions: &mut Vec<(String, Definition)>,
    host: &mut Host,
    fuel: u64,
) -> (r: Result<(bool, Option<DataType>), RunError>)
    requires
        wf_exprs(expr.conditions@),
        wf_exprs(expr.block@),
        wf_scopes(old(scopes)@),
        wf_reg(old(functions)@),
        wf_replies(old(host).replies@),
    ensures
        wf_scopes(final(scopes)@),
        final(scopes)@.len() == old(scopes)@.len(),
        wf_reg(final(functions)@),
        final(host).replies@ == old(host).replies@,
        r matches Ok(co) ==> (co.1 matches Some(d) ==> wf_dt(d)),
        spec_run_if(
            exprs_view(expr.conditions@),
            exprs_view(expr.block@),
            st_of(old(scopes)@, old(functions)@, *old(host)),
            fuel as nat,
        ) == bstep_of(r, st_of(final(scopes)@, final(functions)@, *final(host))),

    decreases fuel, 0int,
{
    proof {
        reveal_with_fuel(spec_run_if, 1);
    }
    if fuel == 0 {
        return Err(RunError::StackOverflow);
    }
    let f = fuel - 1;
    proof {
        lemma_exprs_view(expr.conditions@);
    }
    if expr.conditions.len() != 1 {
        return Err(RunError::ParseError);
    }
    let ghost pre = scopes@;
    scopes.push(Vec::new());
    proof {
        assert(scopes@ =~= pre.push(scopes@[scopes@.len() - 1]));
        lemma_scopes_view_push(pre, scopes@[scopes@.len() - 1]);
        assert(frame_view(scopes@[scopes@.len() - 1]@) =~= Seq::<(Seq<char>, Val)>::empty());
        assert(scopes_view(scopes@) == scopes_view(pre).push(frame_view(
            scopes@[scopes@.len() - 1]@,
        )));
        assert(scopes_view(scopes@) =~= scopes_view(pre).push(Seq::empty()));
        lemma_scopes_view(scopes@);
        lemma_scopes_view(pre);
    }
    let cd = match calculate_bexpr(&expr.conditions[0], scopes, functions, host, f) {
        Ok(x) => x,
        Err(e) => {
            let popped = scopes.pop();
            return Err(e);
        },
    };
    match cd.kind {
        Literal::Bool => {
            let c = match cd.store.boolean {
                Some(b) => b,
                None => false,
            };
            if c {
                let out = match run(&expr.block, scopes, functions, host, f) {
                    Ok(o) => o,
                    Err(e) => {
                        let popped = scopes.pop();
                        return Err(e);
                    },
                };
                let ghost mid = scopes@;
                let popped = scopes.pop();
                proof {
                    assert(scopes@ =~= mid.drop_last());
                    lemma_scopes_view_drop(mid);
                    assert(scopes_view(scopes@) == scopes_view(mid).drop_last());
                    lemma_scopes_view(scopes@);
                }
                Ok((true, out))
            } else {
                let ghost mid = scopes@;
                let popped = scopes.pop();
                proof {
                    assert(scopes@ =~= mid.drop_last());
                    lemma_scopes_view_drop(mid);
                    assert(scopes_view(scopes@) == scopes_view(mid).drop_last());
                    lemma_scopes_view(scopes@);
                }
                Ok((false, None))
            }
        },
        _ => {
            let popped = scopes.pop();
            Err(RunError::TypeMismatch)
        },
    }
}

/// Runs an `else` body in a freshly pushed scope, popped afterwards.
#[verifier::spinoff_prover]
#[verifier::rlimit(100)]
pub fn run_else(
    expr: &Block,
    scopes: &mut Vec<Vec<(String, DataType)>>,
    functions: &mut Vec<(String, Definition)>,
    host: &mut Host,
    fuel: u64,
) -> (r: Result<Option<DataType>, RunError>)
    requires
        wf_exprs(expr.block@),
        wf_scopes(old(scopes)@),
        wf_reg(old(functions)@),
        wf_replies(old(host).replies@),
    ensures
        wf_scopes(final(scopes)@),
        final(scopes)@.len() == old(scopes)@.len(),
        wf_reg(final(functions)@),
        final(host).replies@ == old(host).replies@,
        r matches Ok(ov) ==> (ov matches Some(d) ==> wf_dt(d)),
        spec_run_else(
            exprs_view(expr.block@),
            st_of(old(scopes)@, old(functions)@, *old(host)),
            fuel as nat,
        ) == ostep_of(r, st_of(final(scopes)@, final(functions)@, *final(host))),

    decreases fuel, 0int,
{
    proof {
        reveal_with_fuel(spec_run_else, 1);
    }
    if fuel == 0 {
        return Err(RunError::StackOverflow);
    }
    let f = fuel - 1;
    let ghost pre = scopes@;
    scopes.push(Vec::new());
    proof {
        assert(scopes@ =~= pre.push(scopes@[scopes@.len() - 1]));
        lemma_scopes_view_push(pre, scopes@[scopes@.len() - 1]);
        assert(frame_view(scopes@[scopes@.len() - 1]@) =~= Seq::<(Seq<char>, Val)>::empty());
        assert(scopes_view(scopes@) == scopes_view(pre).push(frame_view(
            scopes@[scopes@.len() - 1]@,
        )));
        assert(scopes_view(scopes@) =~= scopes_view(pre).push(Seq::empty()));
        lemma_scopes_view(scopes@);
        lemma_scopes_view(pre);
    }
    let out = match run(&expr.block, scopes, functions, host, f) {
        Ok(o) => o,
        Err(e) => {
            let popped = scopes.pop();
            return Err(e);
        },
    };
    let ghost mid = scopes@;
    let popped = scopes.pop();
    proof {
        assert(scopes@ =~= mid.drop_last());
        lemma_scopes_view_drop(mid);
        assert(scopes_view(scopes@) == scopes_view(mid).drop_last());
        lemma_scopes_view(scopes@);
    }
    Ok(out)
}

/// Applies a loop updater — an increment/decrement or an assignment — and
/// writes the result into the loop's own scope.
#[verifier::spinoff_prover]
#[verifier::rlimit(100)]
fn apply_update(
    upd: &Expr,
    scopes: &mut Vec<Vec<(String, DataType)>>,
    functions: &mut Vec<(String, Definition)>,
    host: &mut Host,
    fuel: u64,
) -> (r: Result<(), RunError>)
    requires
        wf_expr(*upd),
        old(scopes)@.len() > 0,
        wf_scopes(old(scopes)@),
        wf_reg(old(functions)@),
        wf_replies(old(host).replies@),
    ensures
        wf_scopes(final(scopes)@),
        final(scopes)@.len() == old(scopes)@.len(),
        wf_reg(final(functions)@),
        final(host).replies@ == old(host).replies@,
        spec_apply_update(
            expr_view(*upd),
            st_of(old(scopes)@, old(functions)@, *old(host)),
            fuel as nat,
        ) == ustep_of(r, st_of(final(scopes)@, final(functions)@, *final(host))),

    decreases fuel, 0int,
{
    proof {
        reveal_with_fuel(spec_apply_update, 1);
    }
    if fuel == 0 {
        return Err(RunError::StackOverflow);
    }
    let f = fuel - 1;
    match upd {
        Expr::Unary(u) => match &*u.value {
            Expr::Literal(d) => match d.kind {
                Literal::Variable => {
                    proof {
                        assert(dt_view(*d) == Val::Var(d.value@));
                        assert(expr_view(*u.value) == ExprV::Literal(Val::Var(d.value@)));
                        assert(expr_view(*upd) == ExprV::Unary(
                            u.operator,
                            Box::new(ExprV::Literal(Val::Var(d.value@))),
                        ));
                    }
                    let cur = match get_from_scope(scopes, &d.value) {
                        Ok(c) => c,
                        Err(e) => {
                            return Err(e);
                        },
                    };
                    let one = DataType {
                        value: String::new(),
                        kind: Literal::Int,
                        store: DataStore::new(Some(1), None),
                    };
                    let stepped = match u.operator {
                        Operator::Plus => crate::runtime::operations::add(cur, one),
                        Operator::Minus => crate::runtime::operations::subtract(cur, one),
                        _ => Err(RunError::TypeMismatch),
                    };
                    let v = match stepped {
                        Ok(x) => x,
                        Err(e) => {
                            return Err(e);
                        },
                    };
                    set_into_current_scope(scopes, &d.value, v);
                    Ok(())
                },
                _ => Err(RunError::ParseError),
            },
            _ => Err(RunError::ParseError),
        },
        Expr::Binary(b) => match b.operator {
            Operator::Equals => match &*b.left {
                Expr::Literal(d) => match d.kind {
                    Literal::Variable => {
                        proof {
                            assert(dt_view(*d) == Val::Var(d.value@));
                            assert(expr_view(*b.left) == ExprV::Literal(Val::Var(d.value@)));
                            assert(expr_view(*upd) == ExprV::Binary(
                                b.operator,
                                Box::new(ExprV::Literal(Val::Var(d.value@))),
                                Box::new(expr_view(*b.right)),
                            ));
                        }
                        let v = match calculate_bexpr(&b.right, scopes, functions, host, f) {
                            Ok(x) => x,
                            Err(e) => {
                                return Err(e);
                            },
                        };
                        set_into_current_scope(scopes, &d.value, v);
                        Ok(())
                    },
                    _ => Err(RunError::ParseError),
                },
                _ => Err(RunError::ParseError),
            },
            _ => Err(RunError::ParseError),
        },
        _ => Err(RunError::ParseError),
    }
}

/// One round of a condition-only `for` loop: test, run the body, repeat.
#[verifier::spinoff_prover]
#[verifier::rlimit(100)]
fn for_while(
    cond: &Expr,
    body: &Vec<Expr>,
    scopes: &mut Vec<Vec<(String, DataType)>>,
    functions: &mut Vec<(String, Definition)>,
    host: &mut Host,
    fuel: u64,
) -> (r: Result<Option<DataType>, RunError>)
    requires
        wf_expr(*cond),
        wf_exprs(body@),
        old(scopes)@.len() > 0,
        wf_scopes(old(scopes)@),
        wf_reg(old(functions)@),
        wf_replies(old(host).replies@),
    ensures
        wf_scopes(final(scopes)@),
        final(scopes)@.len() == old(scopes)@.len(),
        wf_reg(final(functions)@),
        final(host).replies@ == old(host).replies@,
        r matches Ok(ov) ==> (ov matches Some(d) ==> wf_dt(d)),
        spec_for_while(
            expr_view(*cond),
            exprs_view(body@),
            st_of(old(scopes)@, old(functions)@, *old(host)),
            fuel as nat,
        ).0 == ostep_of(r, st_of(final(scopes)@, final(functions)@, *final(host))),

    decreases fuel, 0int,
{
    proof {
        reveal_with_fuel(spec_for_while, 1);
    }
    if fuel == 0 {
        return Err(RunError::StackOverflow);
    }
    let f = fuel - 1;
    let cd = match calculate_bexpr(cond, scopes, functions, host, f) {
        Ok(x) => x,
        Err(e) => {
            return Err(e);
        },
    };
    match cd.kind {
        Literal::Bool => {
            let c = match cd.store.boolean {
                Some(b) => b,
                None => false,
            };
            if !c {
                Ok(None)
            } else {
                match run(body, scopes, functions, host, f) {
                    Ok(Some(d)) => Ok(Some(d)),
                    Ok(None) => for_while(cond, body, scopes, functions, host, f),
                    Err(e) => Err(e),
                }
            }
        },
        _ => Err(RunError::TypeMismatch),
    }
}

/// One round of a three-part `for` loop whose condition has just held:
/// body, updater, retest.
#[verifier::spinoff_prover]
#[verifier::rlimit(100)]
fn for_three(
    cond: &Expr,
    body: &Vec<Expr>,
    upd: &Expr,
    scopes: &mut Vec<Vec<(String, DataType)>>,
    functions: &mut Vec<(String, Definition)>,
    host: &mut Host,
    fuel: u64,
) -> (r: Result<Option<DataType>, RunError>)
    requires
        wf_expr(*cond),
        wf_exprs(body@),
        wf_expr(*upd),
        old(scopes)@.len() > 0,
        wf_scopes(old(scopes)@),
        wf_reg(old(functions)@),
        wf_replies(old(host).replies@),
    ensures
        wf_scopes(final(scopes)@),
        final(scopes)@.len() == old(scopes)@.len(),
        wf_reg(final(functions)@),
        final(host).replies@ == old(host).replies@,
        r matches Ok(ov) ==> (ov matches Some(d) ==> wf_dt(d)),
        spec_for_three(
            expr_view(*cond),
            exprs_view(body@),
            expr_view(*upd),
            st_of(old(scopes)@, old(functions)@, *old(host)),
            fuel as nat,
        ).0 == ostep_of(r, st_of(final(scopes)@, final(functions)@, *final(host))),

    decreases fuel, 0int,
{
    proof {
        reveal_with_fuel(spec_for_three, 1);
    }
    if fuel == 0 {
        return Err(RunError::StackOverflow);
    }
    let f = fuel - 1;
    match run(body, scopes, functions, host, f) {
        Ok(Some(d)) => Ok(Some(d)),
        Err(e) => Err(e),
        Ok(None) => {
            match apply_update(upd, scopes, functions, host, f) {
                Ok(u) => u,
                Err(e) => {
                    return Err(e);
                },
            };
            let cd = match calculate_bexpr(cond, scopes, functions, host, f) {
                Ok(x) => x,
                Err(e) => {
                    return Err(e);
                },
            };
            match cd.kind {
                Literal::Bool => {
                    let c = match cd.store.boolean {
                        Some(b) => b,
                        None => false,
                    };
                    if c {
                        for_three(cond, body, upd, scopes, functions, host, f)
                    } else {
                        Ok(None)
                    }
                },
                _ => Err(RunError::TypeMismatch),
            }
        },
    }
}

/// Runs a `for` statement: one header expression makes a while-style loop,
/// three make an iterator loop with initialiser, condition and updater,
/// all in one scope pushed for the whole loop. A `return` in the body
/// aborts the loop and propagates its value.
#[verifier::spinoff_prover]
#[verifier::rlimit(100)]
pub fn run_for(
    expr: &Block,
    scopes: &mut Vec<Vec<(String, DataType)>>,
    functions: &mut Vec<(String, Definition)>,
    host: &mut Host,
    fuel: u64,
) -> (r: Result<Option<DataType>, RunError>)
    requires
        wf_exprs(expr.conditions@),
        wf_exprs(expr.block@),
        wf_scopes(old(scopes)@),
        wf_reg(old(functions)@),
        wf_replies(old(host).replies@),
    ensures
        wf_scopes(final(scopes)@),
        final(scopes)@.len() == old(scopes)@.len(),
        wf_reg(final(functions)@),
        final(host).replies@ == old(host).replies@,
        r matches Ok(ov) ==> (ov matches Some(d) ==> wf_dt(d)),
        spec_run_for(
            exprs_view(expr.conditions@),
            exprs_view(expr.block@),
            st_of(old(scopes)@, old(functions)@, *old(host)),
            fuel as nat,
        ).0 == ostep_of(r, st_of(final(scopes)@, final(functions)@, *final(host))),

    decreases fuel, 0int,
{
    proof {
        reveal_with_fuel(spec_run_for, 1);
    }
    if fuel == 0 {
        return Err(RunError::StackOverflow);
    }
    let f = fuel - 1;
    proof {
        lemma_exprs_view(expr.conditions@);
    }
    let ghost pre = scopes@;
    scopes.push(Vec::new());
    proof {
        assert(scopes@ =~= pre.push(scopes@[scopes@.len() - 1]));
        lemma_scopes_view_push(pre, scopes@[scopes@.len() - 1]);
        assert(frame_view(scopes@[scopes@.len() - 1]@) =~= Seq::<(Seq<char>, Val)>::empty());
        assert(scopes_view(scopes@) == scopes_view(pre).push(frame_view(
            scopes@[scopes@.len() - 1]@,
        )));
        assert(scopes_view(scopes@) =~= scopes_view(pre).push(Seq::empty()));
        lemma_scopes_view(scopes@);
        lemma_scopes_view(pre);
    }
    if expr.conditions.len() == 1 {
        let out = match for_while(&expr.conditions[0], &expr.block, scopes, functions, host, f) {
            Ok(o) => o,
            Err(e) => {
                let popped = scopes.pop();
                return Err(e);
            },
        };
        let ghost mid = scopes@;
        let popped = scopes.pop();
        proof {
            assert(scopes@ =~= mid.drop_last());
            lemma_scopes_view_drop(mid);
            assert(scopes_view(scopes@) == scopes_view(mid).drop_last());
            lemma_scopes_view(scopes@);
        }
        Ok(out)
    } else if expr.conditions.len() == 3 {
        proof {
            assert(exprs_view(expr.conditions@)[0] == expr_view(expr.conditions@[0]));
            assert(exprs_view(expr.conditions@)[1] == expr_view(expr.conditions@[1]));
            assert(exprs_view(expr.conditions@)[2] == expr_view(expr.conditions@[2]));
        }
        for_parts(
            &expr.conditions[0],
            &expr.conditions[1],
            &expr.block,
            &expr.conditions[2],
            scopes,
            functions,
            host,
            f,
        )
    } else {
        let popped = scopes.pop();
        Err(RunError::ParseError)
    }
}

/// Runs a three-part loop once its scope is pushed: binds the iterator by
/// the initialiser, tests the condition, runs the rounds, and pops the
/// loop's scope on every way out.
#[verifier::spinoff_prover]
#[verifier::rlimit(100)]
fn for_parts(
    init: &Expr,
    cond: &Expr,
    body: &Vec<Expr>,
    upd: &Expr,
    scopes: &mut Vec<Vec<(String, DataType)>>,
    functions: &mut Vec<(String, Definition)>,
    host: &mut Host,
    fuel: u64,
) -> (r: Result<Option<DataType>, RunError>)
    requires
        wf_expr(*init),
        wf_expr(*cond),
        wf_exprs(body@),
        wf_expr(*upd),
        old(scopes)@.len() >= 1,
        wf_scopes(old(scopes)@),
        wf_reg(old(functions)@),
        wf_replies(old(host).replies@),
    ensures
        wf_scopes(final(scopes)@),
        final(scopes)@.len() == old(scopes)@.len() - 1,
        wf_reg(final(functions)@),
        final(host).replies@ == old(host).replies@,
        r matches Ok(ov) ==> (ov matches Some(d) ==> wf_dt(d)),
        spec_for_parts(
            expr_view(*init),
            expr_view(*cond),
            exprs_view(body@),
            expr_view(*upd),
            st_of(old(scopes)@, old(functions)@, *old(host)),
            fuel as nat,
        ).0 == ostep_of(r, st_of(final(scopes)@, final(functions)@, *final(host))),

    decreases fuel, 0int,
{
    proof {
        reveal_with_fuel(spec_for_parts, 1);
    }
    if fuel == 0 {
        let popped = scopes.pop();
        return Err(RunError::StackOverflow);
    }
    let f = fuel - 1;
    match init {
            Expr::Binary(b) => match b.operator {
                Operator::Equals => match &*b.left {
                    Expr::Literal(dd) => match dd.kind {
                        Literal::Variable => {
                            proof {
                                assert(dt_view(*dd) == Val::Var(dd.value@));
                                assert(expr_view(*b.left) == ExprV::Literal(
                                    Val::Var(dd.value@),
                                ));
                                assert(expr_view(*init) == ExprV::Binary(
                                    b.operator,
                                    Box::new(ExprV::Literal(Val::Var(dd.value@))),
                                    Box::new(expr_view(*b.right)),
                                ));
                            }
                            let v0 = match calculate_bexpr(&b.right, scopes, functions, host, f) {
                                Ok(x) => x,
                                Err(e) => {
                                    let popped = scopes.pop();
                                    return Err(e);
                                },
                            };
                            set_into_current_scope(scopes, &dd.value, v0);
                            let cd = match calculate_bexpr(cond, scopes, functions, host, f) {
                                Ok(x) => x,
                                Err(e) => {
                                    let popped = scopes.pop();
                                    return Err(e);
                                },
                            };
                            match cd.kind {
                                Literal::Bool => {
                                    let c = match cd.store.boolean {
                                        Some(bb) => bb,
                                        None => false,
                                    };
                                    if c {
                                        let out = match for_three(
                                            cond,
                                            body,
                                            upd,
                                            scopes,
                                            functions,
                                            host,
                                            f,
                                        ) {
                                            Ok(o) => o,
                                            Err(e) => {
                                                let popped = scopes.pop();
                                                return Err(e);
                                            },
                                        };
                                        let ghost mid = scopes@;
                                        let popped = scopes.pop();
                                        proof {
                                            assert(scopes@ =~= mid.drop_last());
                                            lemma_scopes_view_drop(mid);
                                            assert(scopes_view(scopes@) == scopes_view(
                                                mid,
                                            ).drop_last());
                                            lemma_scopes_view(scopes@);
                                        }
                                        Ok(out)
                                    } else {
                                        let ghost mid = scopes@;
                                        let popped = scopes.pop();
                                        proof {
                                            assert(scopes@ =~= mid.drop_last());
                                            lemma_scopes_view_drop(mid);
                                            assert(scopes_view(scopes@) == scopes_view(
                                                mid,
                                            ).drop_last());
                                            lemma_scopes_view(scopes@);
                                        }
                                        Ok(None)
                                    }
                                },
                                _ => {
                                    let popped = scopes.pop();
                                    Err(RunError::TypeMismatch)
                                },
                            }
                        },
                        _ => {
                            let popped = scopes.pop();
                            Err(RunError::ParseError)
                        },
                    },
                    _ => {
                        let popped = scopes.pop();
                        Err(RunError::ParseError)
                    },
                },
                _ => {
                    let popped = scopes.pop();
                    Err(RunError::ParseError)
                },
            },
            _ => {
                let popped = scopes.pop();
                Err(RunError::ParseError)
            },
        }

}

/// Runs a module's top-level statements against a scope stack local to
/// the import, registering its definitions into the shared registry.
#[verifier::spinoff_prover]
#[verifier::rlimit(100)]
fn run_module(
    tree: &Vec<Expr>,
    scopes: &Vec<Vec<(String, DataType)>>,
    functions: &mut Vec<(String, Definition)>,
    host: &mut Host,
    fuel: u64,
) -> (r: Result<(), RunError>)
    requires
        wf_exprs(tree@),
        wf_scopes(scopes@),
        wf_reg(old(functions)@),
        wf_replies(old(host).replies@),
    ensures
        wf_reg(final(functions)@),
        final(host).replies@ == old(host).replies@,
        match r {
            Ok(u) => spec_run(
                exprs_view(tree@),
                0,
                false,
                false,
                st_of(scopes@, old(functions)@, *old(host)).with_scopes(
                    seq![Seq::<(Seq<char>, Val)>::empty()],
                ),
                fuel as nat,
            ) matches Step::Done(ov, st2) && st2.with_scopes(scopes_view(scopes@)) == st_of(
                scopes@,
                final(functions)@,
                *final(host),
            ),
            Err(e) => spec_run(
                exprs_view(tree@),
                0,
                false,
                false,
                st_of(scopes@, old(functions)@, *old(host)).with_scopes(
                    seq![Seq::<(Seq<char>, Val)>::empty()],
                ),
                fuel as nat,
            ) == Step::Fail::<Option<Val>>(err_view(e)),
        },
    decreases fuel, 3int,
{
    let mut local: Vec<Vec<(String, DataType)>> = Vec::new();
    local.push(Vec::new());
    proof {
        lemma_scopes_view(local@);
        assert(frame_view(Seq::<(String, DataType)>::empty()) =~= Seq::<(Seq<char>, Val)>::empty());
        assert(scopes_view(local@) =~= seq![Seq::<(Seq<char>, Val)>::empty()]);
    }
    match run(tree, &mut local, functions, host, fuel) {
        Ok(o) => Ok(()),
        Err(e) => Err(e),
    }
}

/// Imports the modules named from position `start` on.
#[verifier::spinoff_prover]
#[verifier::rlimit(100)]
fn import_go(
    libs: &Vec<Expr>,
    start: usize,
    scopes: &Vec<Vec<(String, DataType)>>,
    functions: &mut Vec<(String, Definition)>,
    host: &mut Host,
    fuel: u64,
) -> (r: Result<(), RunError>)
    requires
        wf_exprs(libs@),
        start <= libs@.len(),
        wf_scopes(scopes@),
        wf_reg(old(functions)@),
        wf_replies(old(host).replies@),
    ensures
        wf_reg(final(functions)@),
        final(host).replies@ == old(host).replies@,
        spec_import(
            exprs_view(libs@).skip(start as int),
            st_of(scopes@, old(functions)@, *old(host)),
            fuel as nat,
        ) == ustep_of(r, st_of(scopes@, final(functions)@, *final(host))),

    decreases fuel, 0int,
{
    proof {
        reveal_with_fuel(spec_import, 1);
    }
    proof {
        lemma_exprs_view(libs@);
    }
    if fuel == 0 {
        return Err(RunError::StackOverflow);
    }
    let f = fuel - 1;
    let ghost tv = exprs_view(libs@);
    let ghost st0 = st_of(scopes@, functions@, *host);
    if start >= libs.len() {
        proof {
            assert(tv.skip(start as int) =~= Seq::<ExprV>::empty());
        }
        return Ok(());
    }
    proof {
        assert(tv.skip(start as int)[0] == expr_view(libs@[start as int]));
        assert(tv.skip(start as int).drop_first() =~= tv.skip(start + 1));
    }
    match &libs[start] {
        Expr::Literal(d) => match d.kind {
            Literal::Variable => {
                proof {
                    assert(dt_view(*d) == Val::Var(d.value@));
                    assert(expr_view(libs@[start as int]) == ExprV::Literal(Val::Var(d.value@)));
                    lemma_replies_view(host.replies@);
                }
                if host.used < host.replies.len() {
                    let module: Option<Option<Vec<Expr>>> = match &host.replies[host.used] {
                        Reply::Module(Some(t)) => Some(Some(crate::parsing::parser::clone_exprs(t))),
                        Reply::Module(None) => Some(None),
                        _ => None,
                    };
                    match module {
                        Some(Some(tree)) => {
                            proof {
                                assert(replies_view(host.replies@)[host.used as int]
                                    == reply_view(host.replies@[host.used as int]));
                            }
                            host.used = host.used + 1;
                            match run_module(&tree, scopes, functions, host, f) {
                                Ok(u) => u,
                                Err(e) => {
                                    proof {
                                        assert(spec_import(
                                            tv.skip(start as int),
                                            st0,
                                            fuel as nat,
                                        ) == Step::Fail::<Option<Val>>(err_view(e)));
                                    }
                                    return Err(e);
                                },
                            };
                            import_go(libs, start + 1, scopes, functions, host, f)
                        },
                        Some(None) => {
                            proof {
                                assert(spec_import(tv.skip(start as int), st0, fuel as nat)
                                    == Step::Fail::<Option<Val>>(
                                    ErrV::ImportNotFound(d.value@),
                                ));
                            }
                            Err(RunError::ImportNotFound(d.value.clone()))
                        },
                        None => {
                            proof {
                                assert(spec_import(tv.skip(start as int), st0, fuel as nat)
                                    == Step::Fail::<Option<Val>>(
                                    ErrV::ImportRequest(d.value@),
                                ));
                            }
                            Err(RunError::ImportRequest(d.value.clone()))
                        },
                    }
                } else {
                    proof {
                        assert(spec_import(tv.skip(start as int), st0, fuel as nat)
                            == Step::Fail::<Option<Val>>(ErrV::ImportRequest(d.value@)));
                    }
                    Err(RunError::ImportRequest(d.value.clone()))
                }
            },
            _ => Err(RunError::ParseError),
        },
        _ => Err(RunError::ParseError),
    }
}

/// Runs an `import` statement: each named module's definitions are merged
/// into the registry, its top-level statements running against a scope
/// stack local to the import.
#[verifier::spinoff_prover]
#[verifier::rlimit(100)]
pub fn import(
    expr: &Block,
    scopes: &Vec<Vec<(String, DataType)>>,
    functions: &mut Vec<(String, Definition)>,
    host: &mut Host,
    fuel: u64,
) -> (r: Result<(), RunError>)
    requires
        wf_exprs(expr.block@),
        wf_scopes(scopes@),
        wf_reg(old(functions)@),
        wf_replies(old(host).replies@),
    ensures
        wf_reg(final(functions)@),
        final(host).replies@ == old(host).replies@,
        spec_import(
            exprs_view(expr.block@),
            st_of(scopes@, old(functions)@, *old(host)),
            fuel as nat,
        ) == ustep_of(r, st_of(scopes@, final(functions)@, *final(host))),

    decreases fuel, 1int,
{
    proof {
        assert(exprs_view(expr.block@).skip(0) =~= exprs_view(expr.block@));
    }
    import_go(&expr.block, 0, scopes, functions, host, fuel)
}

/// Prints the arguments from position `start` on: each is evaluated,
/// rendered, and appended to the program output with a newline.
#[verifier::spinoff_prover]
#[verifier::rlimit(100)]
fn print_args(
    args: &Vec<Expr>,
    start: usize,
    scopes: &Vec<Vec<(String, DataType)>>,
    functions: &mut Vec<(String, Definition)>,
    host: &mut Host,
    fuel: u64,
) -> (r: Result<(), RunError>)
    requires
        wf_exprs(args@),
        start <= args@.len(),
        wf_scopes(scopes@),
        wf_reg(old(functions)@),
        wf_replies(old(host).replies@),
    ensures
        wf_reg(final(functions)@),
        final(host).replies@ == old(host).replies@,
        spec_print(
            exprs_view(args@).skip(start as int),
            st_of(scopes@, old(functions)@, *old(host)),
            fuel as nat,
        ) == ustep_of(r, st_of(scopes@, final(functions)@, *final(host))),

    decreases fuel, 0int,
{
    proof {
        reveal_with_fuel(spec_print, 1);
    }
    proof {
        lemma_exprs_view(args@);
    }
    if fuel == 0 {
        return Err(RunError::StackOverflow);
    }
    let f = fuel - 1;
    if start >= args.len() {
        proof {
            assert(exprs_view(args@).skip(start as int) =~= Seq::<ExprV>::empty());
        }
        return Ok(());
    }
    proof {
        assert(exprs_view(args@).skip(start as int)[0] == expr_view(args@[start as int]));
        assert(exprs_view(args@).skip(start as int).drop_first() =~= exprs_view(args@).skip(
            start + 1,
        ));
    }
    let v = match calculate_bexpr(&args[start], scopes, functions, host, f) {
        Ok(x) => x,
        Err(e) => {
            return Err(e);
        },
    };
    let txt = match render_value(&v, scopes, functions, host, f) {
        Ok(x) => x,
        Err(e) => {
            return Err(e);
        },
    };
    host.output.append(txt.as_str());
    host.output.append("\n");
    print_args(args, start + 1, scopes, functions, host, f)
}

/// Runs a `print` call: writes each evaluated argument, one per line,
/// rendering arrays as `[ v1; v2; ]`.
#[verifier::spinoff_prover]
#[verifier::rlimit(100)]
pub fn run_print(
    expr: &Function,
    scopes: &Vec<Vec<(String, DataType)>>,
    functions: &mut Vec<(String, Definition)>,
    host: &mut Host,
    fuel: u64,
) -> (r: Result<(), RunError>)
    requires
        wf_exprs(expr.arguments@),
        wf_scopes(scopes@),
        wf_reg(old(functions)@),
        wf_replies(old(host).replies@),
    ensures
        wf_reg(final(functions)@),
        final(host).replies@ == old(host).replies@,
        spec_print(
            exprs_view(expr.arguments@),
            st_of(scopes@, old(functions)@, *old(host)),
            fuel as nat,
        ) == ustep_of(r, st_of(scopes@, final(functions)@, *final(host))),

    decreases fuel, 1int,
{
    proof {
        assert(exprs_view(expr.arguments@).skip(0) =~= exprs_view(expr.arguments@));
    }
    print_args(&expr.arguments, 0, scopes, functions, host, fuel)
}

/// Runs the statements from position `i` on, carrying the
/// `if`/`elseif`/`else` chain state.
#[verifier::spinoff_prover]
#[verifier::rlimit(100)]
fn run_from(
    tree: &Vec<Expr>,
    i: usize,
    started: bool,
    status: bool,
    scopes: &mut Vec<Vec<(String, DataType)>>,
    functions: &mut Vec<(String, Definition)>,
    host: &mut Host,
    fuel: u64,
) -> (r: Result<Option<DataType>, RunError>)
    requires
        wf_exprs(tree@),
        i <= tree@.len(),
        old(scopes)@.len() > 0,
        wf_scopes(old(scopes)@),
        wf_reg(old(functions)@),
        wf_replies(old(host).replies@),
    ensures
        wf_scopes(final(scopes)@),
        final(scopes)@.len() == old(scopes)@.len(),
        wf_reg(final(functions)@),
        final(host).replies@ == old(host).replies@,
        r matches Ok(ov) ==> (ov matches Some(d) ==> wf_dt(d)),
        spec_run(
            exprs_view(tree@),
            i as int,
            started,
            status,
            st_of(old(scopes)@, old(functions)@, *old(host)),
            fuel as nat,
        ) == ostep_of(r, st_of(final(scopes)@, final(functions)@, *final(host))),

    decreases fuel, 1int,
{
    proof {
        reveal_with_fuel(spec_run, 1);
    }
    proof {
        lemma_exprs_view(tree@);
    }
    if fuel == 0 {
        return Err(RunError::StackOverflow);
    }
    let f = fuel - 1;
    if i >= tree.len() {
        return Ok(None);
    }
    match &tree[i] {
        Expr::Binary(b) => match b.operator {
            Operator::Equals => match &*b.left {
                Expr::Literal(d) => match d.kind {
                    Literal::Variable => {
                        proof {
                            assert(dt_view(*d) == Val::Var(d.value@));
                            assert(expr_view(*b.left) == ExprV::Literal(Val::Var(d.value@)));
                            assert(expr_view(tree@[i as int]) == ExprV::Binary(
                                b.operator,
                                Box::new(ExprV::Literal(Val::Var(d.value@))),
                                Box::new(expr_view(*b.right)),
                            ));
                        }
                        let v = match calculate_bexpr(&b.right, scopes, functions, host, f) {
                            Ok(x) => x,
                            Err(e) => {
                                return Err(e);
                            },
                        };
                        set_into_scope(scopes, &d.value, v);
                        run_from(tree, i + 1, false, false, scopes, functions, host, f)
                    },
                    _ => Err(RunError::ParseError),
                },
                _ => Err(RunError::ParseError),
            },
            _ => run_from(tree, i + 1, false, false, scopes, functions, host, f),
        },
        Expr::Block(bb) => run_stmt_block(tree, i, started, status, scopes, functions, host, fuel),
        Expr::Function(fcc) => run_stmt_call(tree, i, started, status, scopes, functions, host, fuel),
        Expr::Definition(d) => {
            reg_define(functions, &d.name, d.clone());
            run_from(tree, i + 1, false, false, scopes, functions, host, f)
        },
        _ => run_from(tree, i + 1, false, false, scopes, functions, host, f),
    }
}

/// Runs one control-block statement at position `i` and continues with
/// the rest of the list.
#[verifier::spinoff_prover]
#[verifier::rlimit(100)]
fn run_stmt_block(
    tree: &Vec<Expr>,
    i: usize,
    started: bool,
    status: bool,
    scopes: &mut Vec<Vec<(String, DataType)>>,
    functions: &mut Vec<(String, Definition)>,
    host: &mut Host,
    fuel: u64,
) -> (r: Result<Option<DataType>, RunError>)
    requires
        wf_exprs(tree@),
        i < tree@.len(),
        old(scopes)@.len() > 0,
        wf_scopes(old(scopes)@),
        wf_reg(old(functions)@),
        wf_replies(old(host).replies@),
        tree@[i as int] matches Expr::Block(_),
    ensures
        wf_scopes(final(scopes)@),
        final(scopes)@.len() == old(scopes)@.len(),
        wf_reg(final(functions)@),
        final(host).replies@ == old(host).replies@,
        r matches Ok(ov) ==> (ov matches Some(d) ==> wf_dt(d)),
        spec_run(
            exprs_view(tree@),
            i as int,
            started,
            status,
            st_of(old(scopes)@, old(functions)@, *old(host)),
            fuel as nat,
        ) == ostep_of(r, st_of(final(scopes)@, final(functions)@, *final(host))),
    decreases fuel, 0int,
{
    proof {
        reveal_with_fuel(spec_run, 1);
        lemma_exprs_view(tree@);
    }
    if fuel == 0 {
        return Err(RunError::StackOverflow);
    }
    let f = fuel - 1;
    let total = tree.len();
    proof {
        assert(i < total);
    }
    let b = match &tree[i] {
        Expr::Block(b) => b,
        _ => {
            proof {
                assert(false);
            }
            return Err(RunError::ParseError);
        },
    };
    match b.kind {
            BlockType::If => match run_if(b, scopes, functions, host, f) {
                Err(e) => Err(e),
                Ok((c, Some(d))) => Ok(Some(d)),
                Ok((c, None)) => run_from(tree, i + 1, true, c, scopes, functions, host, f),
            },
            BlockType::ElseIf => {
                if started && !status {
                    match run_if(b, scopes, functions, host, f) {
                        Err(e) => Err(e),
                        Ok((c, Some(d))) => Ok(Some(d)),
                        Ok((c, None)) => run_from(
                            tree,
                            i + 1,
                            true,
                            c,
                            scopes,
                            functions,
                            host,
                            f,
                        ),
                    }
                } else {
                    run_from(tree, i + 1, started, status, scopes, functions, host, f)
                }
            },
            BlockType::Else => {
                if started && !status {
                    match run_else(b, scopes, functions, host, f) {
                        Err(e) => Err(e),
                        Ok(Some(d)) => Ok(Some(d)),
                        Ok(None) => run_from(
                            tree,
                            i + 1,
                            false,
                            false,
                            scopes,
                            functions,
                            host,
                            f,
                        ),
                    }
                } else {
                    run_from(tree, i + 1, false, false, scopes, functions, host, f)
                }
            },
            BlockType::For => match run_for(b, scopes, functions, host, f) {
                Err(e) => Err(e),
                Ok(Some(d)) => Ok(Some(d)),
                Ok(None) => run_from(tree, i + 1, false, false, scopes, functions, host, f),
            },
            BlockType::FormatedString => match format_string(b, scopes, functions, host, f) {
                Err(e) => Err(e),
                Ok(_) => run_from(tree, i + 1, false, false, scopes, functions, host, f),
            },
            BlockType::CommandString => match shell_string(b, scopes, functions, host, true, f) {
                Err(e) => Err(e),
                Ok(_) => run_from(tree, i + 1, false, false, scopes, functions, host, f),
            },
            BlockType::Import => match import(b, scopes, functions, host, f) {
                Err(e) => Err(e),
                Ok(u) => run_from(tree, i + 1, false, false, scopes, functions, host, f),
            },
            BlockType::Return => match run_return(b, scopes, functions, host, f) {
                Err(e) => Err(e),
                Ok(d) => Ok(Some(d)),
            },
            BlockType::Nil => run_from(tree, i + 1, false, false, scopes, functions, host, f),
        }
}

/// Runs one call statement at position `i` and continues with the rest
/// of the list.
#[verifier::spinoff_prover]
#[verifier::rlimit(100)]
fn run_stmt_call(
    tree: &Vec<Expr>,
    i: usize,
    started: bool,
    status: bool,
    scopes: &mut Vec<Vec<(String, DataType)>>,
    functions: &mut Vec<(String, Definition)>,
    host: &mut Host,
    fuel: u64,
) -> (r: Result<Option<DataType>, RunError>)
    requires
        wf_exprs(tree@),
        i < tree@.len(),
        old(scopes)@.len() > 0,
        wf_scopes(old(scopes)@),
        wf_reg(old(functions)@),
        wf_replies(old(host).replies@),
        tree@[i as int] matches Expr::Function(_),
    ensures
        wf_scopes(final(scopes)@),
        final(scopes)@.len() == old(scopes)@.len(),
        wf_reg(final(functions)@),
        final(host).replies@ == old(host).replies@,
        r matches Ok(ov) ==> (ov matches Some(d) ==> wf_dt(d)),
        spec_run(
            exprs_view(tree@),
            i as int,
            started,
            status,
            st_of(old(scopes)@, old(functions)@, *old(host)),
            fuel as nat,
        ) == ostep_of(r, st_of(final(scopes)@, final(functions)@, *final(host))),
    decreases fuel, 0int,
{
    proof {
        reveal_with_fuel(spec_run, 1);
        lemma_exprs_view(tree@);
    }
    if fuel == 0 {
        return Err(RunError::StackOverflow);
    }
    let f = fuel - 1;
    let total = tree.len();
    proof {
        assert(i < total);
    }
    let ghost tv = exprs_view(tree@);
    let ghost st0 = st_of(scopes@, functions@, *host);
    let fc = match &tree[i] {
        Expr::Function(fc) => fc,
        _ => {
            proof {
                assert(false);
            }
            return Err(RunError::ParseError);
        },
    };
    proof {
        assert(tv[i as int] == ExprV::Function(fc.kind, exprs_view(fc.arguments@), fc.name@));
    }
    match fc.kind {
            FunctionType::Print => match run_print(fc, scopes, functions, host, f) {
                Err(e) => {
                    proof {
                        assert(spec_run(tv, i as int, started, status, st0, fuel as nat)
                            == Step::Fail::<Option<Val>>(err_view(e)));
                    }
                    Err(e)
                },
                Ok(u) => run_from(tree, i + 1, false, false, scopes, functions, host, f),
            },
            FunctionType::Length => {
                proof {
                    assert(exprs_view(fc.arguments@).skip(0) =~= exprs_view(fc.arguments@));
                }
                let vals = match eval_args(&fc.arguments, 0, scopes, functions, host, f) {
                    Ok(x) => x,
                    Err(e) => {
                        proof {
                            assert(spec_run(tv, i as int, started, status, st0, fuel as nat)
                                == Step::Fail::<Option<Val>>(err_view(e)));
                        }
                        return Err(e);
                    },
                };
                match crate::runtime::functions::run_len(vals) {
                    Ok(_) => run_from(tree, i + 1, false, false, scopes, functions, host, f),
                    Err(e) => {
                        proof {
                            assert(spec_run(tv, i as int, started, status, st0, fuel as nat)
                                == Step::Fail::<Option<Val>>(err_view(e)));
                        }
                        Err(e)
                    },
                }
            },
            FunctionType::Defined => {
                let builtin = name_is(&fc.name, "length") || name_is(&fc.name, "pop") || name_is(
                    &fc.name,
                    "push",
                ) || name_is(&fc.name, "swap") || name_is(&fc.name, "delete") || name_is(
                    &fc.name,
                    "int",
                ) || name_is(&fc.name, "string");
                if builtin {
                    proof {
                        assert(exprs_view(fc.arguments@).skip(0) =~= exprs_view(fc.arguments@));
                    }
                    let vals = match eval_args(&fc.arguments, 0, scopes, functions, host, f) {
                        Ok(x) => x,
                        Err(e) => {
                            proof {
                                assert(spec_run(tv, i as int, started, status, st0, fuel as nat)
                                    == Step::Fail::<Option<Val>>(err_view(e)));
                            }
                            return Err(e);
                        },
                    };
                    match run_builtin(&fc.name, vals) {
                        Ok(_) => run_from(tree, i + 1, false, false, scopes, functions, host, f),
                        Err(e) => {
                            proof {
                                assert(spec_run(tv, i as int, started, status, st0, fuel as nat)
                                    == Step::Fail::<Option<Val>>(err_view(e)));
                            }
                            Err(e)
                        },
                    }
                } else {
                    match run_function(fc, scopes, functions, host, f) {
                        Err(e) => {
                            proof {
                                assert(spec_run(tv, i as int, started, status, st0, fuel as nat)
                                    == Step::Fail::<Option<Val>>(err_view(e)));
                            }
                            Err(e)
                        },
                        Ok(_) => run_from(tree, i + 1, false, false, scopes, functions, host, f),
                    }
                }
            },
            FunctionType::Nil => run_from(tree, i + 1, false, false, scopes, functions, host, f),
        }
}

/// Runs a statement list from the top. Returns `Some(value)` once a
/// `return` executes — propagated unwound through every enclosing block —
/// and `None` after the last statement. The outcome, the final scopes and
/// registry, the program output and the log cursor are exactly what
/// [`spec_run`] says.
#[verifier::spinoff_prover]
#[verifier::rlimit(100)]
pub fn run(
    tree: &Vec<Expr>,
    scopes: &mut Vec<Vec<(String, DataType)>>,
    functions: &mut Vec<(String, Definition)>,
    host: &mut Host,
    fuel: u64,
) -> (r: Result<Option<DataType>, RunError>)
    requires
        wf_exprs(tree@),
        old(scopes)@.len() > 0,
        wf_scopes(old(scopes)@),
        wf_reg(old(functions)@),
        wf_replies(old(host).replies@),
    ensures
        wf_scopes(final(scopes)@),
        final(scopes)@.len() == old(scopes)@.len(),
        wf_reg(final(functions)@),
        final(host).replies@ == old(host).replies@,
        r matches Ok(ov) ==> (ov matches Some(d) ==> wf_dt(d)),
        spec_run(
            exprs_view(tree@),
            0,
            false,
            false,
            st_of(old(scopes)@, old(functions)@, *old(host)),
            fuel as nat,
        ) == ostep_of(r, st_of(final(scopes)@, final(functions)@, *final(host))),

    decreases fuel, 2int,
{
    run_from(tree, 0, false, false, scopes, functions, host, fuel)
}


/// A frame write is read back: looking up the written name finds the
/// written value.
pub proof fn lemma_frame_get_set(f: Seq<(Seq<char>, Val)>, name: Seq<char>, v: Val)
    ensures
        frame_get(frame_set(f, name, v), name) == Some(v),
    decreases f,
{
    if f.len() == 0 {
        assert(frame_set(f, name, v) == seq![(name, v)]);
    } else if f[0].0 == name {
        assert(frame_set(f, name, v) == seq![(name, v)] + f.drop_first());
        assert(frame_set(f, name, v)[0] == (name, v));
    } else {
        lemma_frame_get_set(f.drop_first(), name, v);
        assert(frame_set(f, name, v) == seq![f[0]] + frame_set(f.drop_first(), name, v));
        assert(frame_set(f, name, v)[0] == f[0]);
        assert(frame_set(f, name, v).drop_first() =~= frame_set(f.drop_first(), name, v));
    }
}

/// A write into the innermost frame is read back by the innermost-first
/// lookup.
pub proof fn lemma_scopes_get_current(ss: Seq<Seq<(Seq<char>, Val)>>, name: Seq<char>, v: Val)
    requires
        ss.len() > 0,
    ensures
        scopes_get(scopes_set_current(ss, name, v), name) == Some(v),
{
    let ss2 = scopes_set_current(ss, name, v);
    assert(ss2.last() == frame_set(ss.last(), name, v));
    lemma_frame_get_set(ss.last(), name, v);
}

/// The iterator condition of a counted loop: `i < n`.
pub open spec fn count_cond(i_name: Seq<char>, n: int) -> ExprV {
    ExprV::Binary(
        Operator::LesserThan,
        Box::new(ExprV::Literal(Val::Var(i_name))),
        Box::new(ExprV::Literal(Val::Int(n))),
    )
}

/// The iterator updater of a counted loop: `++i`.
pub open spec fn count_upd(i_name: Seq<char>) -> ExprV {
    ExprV::Unary(Operator::Plus, Box::new(ExprV::Literal(Val::Var(i_name))))
}

/// The iterator initialiser of a counted loop: `i = k`.
pub open spec fn count_init(i_name: Seq<char>, k: int) -> ExprV {
    ExprV::Binary(
        Operator::Equals,
        Box::new(ExprV::Literal(Val::Var(i_name))),
        Box::new(ExprV::Literal(Val::Int(k))),
    )
}

/// An integer literal evaluates to itself (given a step of budget).
pub proof fn lemma_calc_int(m: int, st: St, fuel: nat)
    ensures
        spec_calc(ExprV::Literal(Val::Int(m)), st, fuel) == if fuel >= 1 {
            Step::Done(Val::Int(m), st)
        } else {
            Step::Fail::<Val>(ErrV::StackOverflow)
        },
{
    reveal_with_fuel(spec_calc, 1);
}

/// The iterator test `i < n` evaluates to whether the iterator's current
/// value is below the bound (given two steps of budget).
pub proof fn lemma_calc_count_cond(i_name: Seq<char>, n: int, v: int, st: St, fuel: nat)
    requires
        scopes_get(st.scopes, i_name) == Some(Val::Int(v)),
    ensures
        spec_calc(count_cond(i_name, n), st, fuel) == if fuel >= 2 {
            Step::Done(Val::Bool(v < n), st)
        } else {
            Step::Fail::<Val>(ErrV::StackOverflow)
        },
{
    reveal_with_fuel(spec_calc, 2);
    if fuel >= 1 {
        let f = (fuel - 1) as nat;
        if f >= 1 {
            assert(spec_calc(ExprV::Literal(Val::Var(i_name)), st, f) == Step::Done(
                Val::Int(v),
                st,
            ));
            assert(spec_calc(ExprV::Literal(Val::Int(n)), st, f) == Step::Done(Val::Int(n), st));
        } else {
            assert(spec_calc(ExprV::Literal(Val::Var(i_name)), st, f) == Step::Fail::<Val>(
                ErrV::StackOverflow,
            ));
        }
    }
}

/// The rounds of `for (…; i < n; ++i) { }` with the iterator at `k < n`
/// and an empty body run the body exactly `n - k` times: each round reads
/// the iterator, adds one, writes it back into the loop's scope and
/// retests. The only possible failure is an exhausted step budget.
#[verifier::spinoff_prover]
#[verifier::rlimit(100)]
pub proof fn lemma_count_loop_rounds(i_name: Seq<char>, n: int, k: int, st: St, fuel: nat)
    requires
        i32::MIN <= k < n <= i32::MAX,
        st.scopes.len() > 0,
        scopes_get(st.scopes, i_name) == Some(Val::Int(k)),
    ensures
        match spec_for_three(count_cond(i_name, n), Seq::empty(), count_upd(i_name), st, fuel) {
            (Step::Done(ov, stf), rounds) => ov is None && rounds == n - k,
            (Step::Fail(e), r0) => e == ErrV::StackOverflow,
        },
    decreases fuel,
{
    reveal_with_fuel(spec_for_three, 1);
    reveal_with_fuel(spec_run, 1);
    reveal_with_fuel(spec_apply_update, 1);
    if fuel == 0 {
        return ;
    }
    let f = (fuel - 1) as nat;
    if f == 0 {
        assert(spec_run(Seq::empty(), 0, false, false, st, f) == Step::Fail::<Option<Val>>(
            ErrV::StackOverflow,
        ));
        return ;
    }
    assert(spec_run(Seq::empty(), 0, false, false, st, f) == Step::Done(None::<Val>, st));
    // the updater: read the iterator, add one, write it back
    crate::runtime::operations::lemma_wrap32_small(k + 1);
    let upd = count_upd(i_name);
    let cond = count_cond(i_name, n);
    let st2 = st.with_scopes(scopes_set_current(st.scopes, i_name, Val::Int(k + 1)));
    assert(spec_apply_update(upd, st, f) == Step::Done(None::<Val>, st2));
    lemma_scopes_get_current(st.scopes, i_name, Val::Int(k + 1));
    assert(st2.scopes.len() == st.scopes.len());
    // the retest at the stepped iterator
    lemma_calc_count_cond(i_name, n, k + 1, st2, f);
    if f < 2 {
        return ;
    }
    if k + 1 < n {
        lemma_count_loop_rounds(i_name, n, k + 1, st2, f);
    }
}

/// The loop statement `for (i = k; i < n; ++i) { }` runs its empty body
/// exactly `max(n - k, 0)` times, whatever scopes it starts from: the
/// loop binds its iterator in a freshly pushed frame and the rounds are
/// the ones counted by [`spec_run_for`]. The only possible failure is an
/// exhausted step budget.
#[verifier::spinoff_prover]
#[verifier::rlimit(100)]
pub proof fn lemma_for_runs_max_times(i_name: Seq<char>, k: int, n: int, st: St, fuel: nat)
    requires
        i32::MIN <= k <= i32::MAX,
        i32::MIN <= n <= i32::MAX,
    ensures
        match spec_run_for(
            seq![count_init(i_name, k), count_cond(i_name, n), count_upd(i_name)],
            Seq::empty(),
            st,
            fuel,
        ) {
            (Step::Done(ov, stf), rounds) => ov is None && rounds == if n > k {
                n - k
            } else {
                0
            },
            (Step::Fail(e), r0) => e == ErrV::StackOverflow,
        },
    decreases fuel,
{
    reveal_with_fuel(spec_run_for, 1);
    reveal_with_fuel(spec_for_parts, 1);
    if fuel == 0 {
        return ;
    }
    let f = (fuel - 1) as nat;
    let st1 = st.with_scopes(st.scopes.push(Seq::empty()));
    let conds = seq![count_init(i_name, k), count_cond(i_name, n), count_upd(i_name)];
    assert(conds.len() == 3);
    assert(conds[0] == count_init(i_name, k));
    assert(conds[1] == count_cond(i_name, n));
    assert(conds[2] == count_upd(i_name));
    if f == 0 {
        return ;
    }
    let f2 = (f - 1) as nat;
    // the initialiser binds the iterator in the loop's own frame
    lemma_calc_int(k, st1, f2);
    if f2 == 0 {
        return ;
    }
    let st3 = st1.with_scopes(scopes_set_current(st1.scopes, i_name, Val::Int(k)));
    lemma_scopes_get_current(st1.scopes, i_name, Val::Int(k));
    // the first test
    lemma_calc_count_cond(i_name, n, k, st3, f2);
    if f2 < 2 {
        return ;
    }
    if k < n {
        assert(st3.scopes.len() > 0);
        lemma_count_loop_rounds(i_name, n, k, st3, f2);
    }
}


/// The assignment statement `name = v`.
pub open spec fn assign_stmt(name: Seq<char>, v: int) -> ExprV {
    ExprV::Binary(
        Operator::Equals,
        Box::new(ExprV::Literal(Val::Var(name))),
        Box::new(ExprV::Literal(Val::Int(v))),
    )
}

/// A program of pure assignments, one per position.
pub open spec fn assign_list(names: Seq<Seq<char>>, vals: Seq<int>) -> Seq<ExprV> {
    Seq::new(names.len(), |i: int| assign_stmt(names[i], vals[i]))
}

/// The scope stack after performing the assignments from position `i` on,
/// in statement order: each write rewrites the innermost frame holding the
/// name or inserts into the innermost frame, so a name's final value is
/// its last-assigned one.
pub open spec fn fold_assigns(
    sc: Seq<Seq<(Seq<char>, Val)>>,
    names: Seq<Seq<char>>,
    vals: Seq<int>,
    i: int,
) -> Seq<Seq<(Seq<char>, Val)>>
    decreases names.len() - i,
{
    if i < 0 || i >= names.len() {
        sc
    } else {
        fold_assigns(scopes_set(sc, names[i], Val::Int(vals[i])), names, vals, i + 1)
    }
}

/// A sequence of pure assignments leaves exactly the assigned bindings:
/// the final scopes are the entry scopes with each name written in
/// statement order — so every declared name holds its last-assigned
/// value. Nothing else of the state changes, and the only possible
/// failure is an exhausted step budget.
#[verifier::spinoff_prover]
#[verifier::rlimit(100)]
pub proof fn lemma_assignments_fold(
    names: Seq<Seq<char>>,
    vals: Seq<int>,
    i: int,
    s0: bool,
    t0: bool,
    st: St,
    fuel: nat,
)
    requires
        names.len() == vals.len(),
        0 <= i <= names.len(),
    ensures
        match spec_run(assign_list(names, vals), i, s0, t0, st, fuel) {
            Step::Done(ov, stf) => ov is None && stf == St {
                scopes: fold_assigns(st.scopes, names, vals, i),
                ..st
            },
            Step::Fail(e) => e == ErrV::StackOverflow,
        },
    decreases fuel,
{
    reveal_with_fuel(spec_run, 1);
    if fuel == 0 {
        return ;
    }
    let f = (fuel - 1) as nat;
    let stmts = assign_list(names, vals);
    if i >= names.len() {
        assert(spec_run(stmts, i, s0, t0, st, fuel) == Step::Done(None::<Val>, st));
        assert(fold_assigns(st.scopes, names, vals, i) == st.scopes);
        assert(St { scopes: st.scopes, ..st } == st);
        return ;
    }
    assert(stmts[i] == assign_stmt(names[i], vals[i]));
    lemma_calc_int(vals[i], st, f);
    if f == 0 {
        return ;
    }
    let st1 = st.with_scopes(scopes_set(st.scopes, names[i], Val::Int(vals[i])));
    lemma_assignments_fold(names, vals, i + 1, false, false, st1, f);
    assert(fold_assigns(st.scopes, names, vals, i) == fold_assigns(
        st1.scopes,
        names,
        vals,
        i + 1,
    ));
}


/// A boolean literal evaluates to itself (given a step of budget).
pub proof fn lemma_calc_bool(b: bool, st: St, fuel: nat)
    ensures
        spec_calc(ExprV::Literal(Val::Bool(b)), st, fuel) == if fuel >= 1 {
            Step::Done(Val::Bool(b), st)
        } else {
            Step::Fail::<Val>(ErrV::StackOverflow)
        },
{
    reveal_with_fuel(spec_calc, 1);
}

/// An `if` arm with a literal condition.
pub open spec fn if_stmt(c: bool, body: Seq<ExprV>) -> ExprV {
    ExprV::Block(BlockType::If, seq![ExprV::Literal(Val::Bool(c))], body)
}

/// An `elseif` arm with a literal condition.
pub open spec fn elseif_stmt(c: bool, body: Seq<ExprV>) -> ExprV {
    ExprV::Block(BlockType::ElseIf, seq![ExprV::Literal(Val::Bool(c))], body)
}

/// An `else` arm.
pub open spec fn else_stmt(body: Seq<ExprV>) -> ExprV {
    ExprV::Block(BlockType::Else, Seq::empty(), body)
}

/// In a directly adjacent `if`/`elseif`/`else` chain exactly one arm's
/// body executes: the first arm whose condition holds, else the `else`
/// arm. The whole chain's outcome — result, early return and final state
/// — is exactly that one body's run in a freshly pushed scope, popped
/// afterwards; the other bodies contribute nothing.
#[verifier::spinoff_prover]
#[verifier::rlimit(100)]
pub proof fn lemma_chain_runs_one_arm(
    c1: bool,
    c2: bool,
    b1: Seq<ExprV>,
    b2: Seq<ExprV>,
    b3: Seq<ExprV>,
    st: St,
    fuel: nat,
)
    requires
        fuel >= 4,
    ensures
        ({
            let chain = seq![if_stmt(c1, b1), elseif_stmt(c2, b2), else_stmt(b3)];
            let sel = if c1 {
                b1
            } else if c2 {
                b2
            } else {
                b3
            };
            let body_fuel: nat = if c1 {
                (fuel - 2) as nat
            } else if c2 {
                (fuel - 3) as nat
            } else {
                (fuel - 4) as nat
            };
            let stp = st.with_scopes(st.scopes.push(Seq::empty()));
            spec_run(chain, 0, false, false, st, fuel) == match spec_run(
                sel,
                0,
                false,
                false,
                stp,
                body_fuel,
            ) {
                Step::Done(ov, stb) => Step::Done(ov, stb.with_scopes(stb.scopes.drop_last())),
                Step::Fail(e) => Step::Fail::<Option<Val>>(e),
            }
        }),
{
    reveal_with_fuel(spec_run, 1);
    reveal_with_fuel(spec_run_if, 1);
    reveal_with_fuel(spec_run_else, 1);
    let chain = seq![if_stmt(c1, b1), elseif_stmt(c2, b2), else_stmt(b3)];
    let stp = st.with_scopes(st.scopes.push(Seq::empty()));
    let f = (fuel - 1) as nat;
    assert(chain[0] == if_stmt(c1, b1));
    assert(chain[1] == elseif_stmt(c2, b2));
    assert(chain[2] == else_stmt(b3));
    assert(seq![ExprV::Literal(Val::Bool(c1))].len() == 1);
    assert(seq![ExprV::Literal(Val::Bool(c1))][0] == ExprV::Literal(Val::Bool(c1)));
    assert(seq![ExprV::Literal(Val::Bool(c2))].len() == 1);
    assert(seq![ExprV::Literal(Val::Bool(c2))][0] == ExprV::Literal(Val::Bool(c2)));
    // the first arm's test runs in its freshly pushed scope
    lemma_calc_bool(c1, stp, (f - 1) as nat);
    if c1 {
        let body_res = spec_run(b1, 0, false, false, stp, (f - 1) as nat);
        match body_res {
            Step::Fail(e) => {
                assert(spec_run_if(seq![ExprV::Literal(Val::Bool(c1))], b1, st, f)
                    == Step::Fail::<(bool, Option<Val>)>(e));
            },
            Step::Done(ov, stb) => {
                let st1 = stb.with_scopes(stb.scopes.drop_last());
                assert(spec_run_if(seq![ExprV::Literal(Val::Bool(c1))], b1, st, f) == Step::Done(
                    (true, ov),
                    st1,
                ));
                match ov {
                    Some(v) => {
                    },
                    None => {
                        // the remaining arms are skipped: the chain is
                        // started and already matched
                        assert(spec_run(chain, 1, true, true, st1, f) == spec_run(
                            chain,
                            2,
                            true,
                            true,
                            st1,
                            (f - 1) as nat,
                        ));
                        assert(spec_run(chain, 2, true, true, st1, (f - 1) as nat) == spec_run(
                            chain,
                            3,
                            false,
                            false,
                            st1,
                            (f - 2) as nat,
                        ));
                        assert(spec_run(chain, 3, false, false, st1, (f - 2) as nat)
                            == Step::Done(None::<Val>, st1));
                    },
                }
            },
        }
        return ;
    }
    // the first arm's condition is false: its pushed scope pops unchanged
    assert(stp.scopes.drop_last() =~= st.scopes);
    assert(st.with_scopes(st.scopes) == st);
    assert(spec_run_if(seq![ExprV::Literal(Val::Bool(c1))], b1, st, f) == Step::Done(
        (false, None::<Val>),
        st,
    ));
    assert(spec_run(chain, 0, false, false, st, fuel) == spec_run(chain, 1, true, false, st, f));
    // the second arm's test
    let f1 = (f - 1) as nat;
    lemma_calc_bool(c2, stp, (f1 - 1) as nat);
    if c2 {
        let body_res = spec_run(b2, 0, false, false, stp, (f1 - 1) as nat);
        match body_res {
            Step::Fail(e) => {
                assert(spec_run_if(seq![ExprV::Literal(Val::Bool(c2))], b2, st, f1)
                    == Step::Fail::<(bool, Option<Val>)>(e));
            },
            Step::Done(ov, stb) => {
                let st1 = stb.with_scopes(stb.scopes.drop_last());
                assert(spec_run_if(seq![ExprV::Literal(Val::Bool(c2))], b2, st, f1) == Step::Done(
                    (true, ov),
                    st1,
                ));
                match ov {
                    Some(v) => {
                    },
                    None => {
                        assert(spec_run(chain, 2, true, true, st1, f1) == spec_run(
                            chain,
                            3,
                            false,
                            false,
                            st1,
                            (f1 - 1) as nat,
                        ));
                        assert(spec_run(chain, 3, false, false, st1, (f1 - 1) as nat)
                            == Step::Done(None::<Val>, st1));
                    },
                }
            },
        }
        return ;
    }
    assert(spec_run_if(seq![ExprV::Literal(Val::Bool(c2))], b2, st, f1) == Step::Done(
        (false, None::<Val>),
        st,
    ));
    assert(spec_run(chain, 1, true, false, st, f) == spec_run(chain, 2, true, false, st, f1));
    // neither condition held: the else arm's body runs
    let f2 = (f1 - 1) as nat;
    let body_res = spec_run(b3, 0, false, false, stp, (f2 - 1) as nat);
    match body_res {
        Step::Fail(e) => {
            assert(spec_run_else(b3, st, f2) == Step::Fail::<Option<Val>>(e));
        },
        Step::Done(ov, stb) => {
            let st1 = stb.with_scopes(stb.scopes.drop_last());
            assert(spec_run_else(b3, st, f2) == Step::Done(ov, st1));
            match ov {
                Some(v) => {
                },
                None => {
                    assert(spec_run(chain, 3, false, false, st1, f2) == Step::Done(
                        None::<Val>,
                        st1,
                    ));
                },
            }
        },
    }
}

} // verus!
