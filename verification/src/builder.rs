//! The tree builder: a stack-based state machine that folds classified
//! lines into a JSON value tree.
//!
//! A frame is one currently open object or array awaiting closure. The
//! root object frame is synthesized before any line is processed. A topic
//! header opens an object frame implicitly; the next topic header at the
//! same level closes it, as does the closing brace of the enclosing frame
//! or the end of input — topic frames never carry braces of their own. The
//! very first non-ignored line of a file, when it is a topic candidate, is
//! the root's descriptive label and causes no transition. A lone key
//! declares a pending key whose value the following open brace or bracket
//! starts. Structure that cannot be folded — a close with nothing open, a
//! brace with no pending key, unclosed frames at the end — is a structural
//! error, not silently repaired.

use crate::classify::classify;
use crate::classify::Brace;
use crate::classify::LineV;
use crate::classify::ParsedLine;
use crate::escape::escape_seq;
use crate::escape::escape_string;
use crate::escape::token_content;
use crate::escape::QUOTE;
use crate::value::entries_view;
use crate::value::items_view;
use crate::value::lemma_entries_view_len;
use crate::value::lemma_items_view_len;
use crate::value::value_view;
use crate::value::Entry;
use crate::value::EntryV;
use crate::value::JsonV;
use crate::value::Value;
use vstd::prelude::*;

verus! {

/// How an open frame will attach to its parent once closed.
pub enum Binding {
    /// The synthesized root frame; it never attaches.
    Root,
    /// A frame opened by a topic header, keyed by the header's text.
    TopicKey(Vec<u8>),
    /// A frame opened under a pending key declared by a lone key line.
    DeclaredKey(Vec<u8>),
    /// An element of an enclosing array frame.
    Element,
}

/// The body of an open frame: an object, an array, or a pending key whose
/// value's opening brace has not arrived yet.
pub enum Body {
    Obj(Vec<Entry>),
    Arr(Vec<Value>),
    Pend,
}

/// One open frame.
pub struct Frame {
    pub binding: Binding,
    pub body: Body,
}

/// The tree builder's state: the stack of open frames, the two counters,
/// and whether a structural error has been hit.
pub struct BuildContext {
    pub stack: Vec<Frame>,
    pub lines_seen: usize,
    pub topics_seen: usize,
    pub failed: bool,
}

/// The mathematical form of a binding.
#[verifier::ext_equal]
pub enum BindingV {
    RootB,
    TopicKeyB(Seq<u8>),
    DeclaredKeyB(Seq<u8>),
    ElementB,
}

/// The mathematical form of a frame body.
#[verifier::ext_equal]
pub enum BodyV {
    ObjB(Seq<EntryV>),
    ArrB(Seq<JsonV>),
    PendB,
}

/// The mathematical form of a frame.
#[verifier::ext_equal]
pub struct FrameV {
    pub binding: BindingV,
    pub body: BodyV,
}

/// The mathematical form of the builder's state.
#[verifier::ext_equal]
pub struct BuildV {
    pub stack: Seq<FrameV>,
    pub lines_seen: int,
    pub topics_seen: int,
    pub failed: bool,
}

impl View for Binding {
    type V = BindingV;

    open spec fn view(&self) -> BindingV {
        match self {
            Binding::Root => BindingV::RootB,
            Binding::TopicKey(t) => BindingV::TopicKeyB(t@),
            Binding::DeclaredKey(k) => BindingV::DeclaredKeyB(k@),
            Binding::Element => BindingV::ElementB,
        }
    }
}

impl View for Body {
    type V = BodyV;

    open spec fn view(&self) -> BodyV {
        match self {
            Body::Obj(es) => BodyV::ObjB(entries_view(es@, 0)),
            Body::Arr(vs) => BodyV::ArrB(items_view(vs@, 0)),
            Body::Pend => BodyV::PendB,
        }
    }
}

impl View for Frame {
    type V = FrameV;

    open spec fn view(&self) -> FrameV {
        FrameV { binding: self.binding@, body: self.body@ }
    }
}

impl View for BuildContext {
    type V = BuildV;

    open spec fn view(&self) -> BuildV {
        BuildV {
            stack: Seq::new(self.stack@.len(), |i: int| self.stack@[i]@),
            lines_seen: self.lines_seen as int,
            topics_seen: self.topics_seen as int,
            failed: self.failed,
        }
    }
}

/// The builder's initial state: one synthesized root object frame.
pub open spec fn init_state() -> BuildV {
    BuildV {
        stack: seq![FrameV { binding: BindingV::RootB, body: BodyV::ObjB(Seq::empty()) }],
        lines_seen: 0,
        topics_seen: 0,
        failed: false,
    }
}

/// A key token wrapped from bare topic text.
pub open spec fn quote_wrap(s: Seq<u8>) -> Seq<u8> {
    seq![QUOTE] + s + seq![QUOTE]
}

/// The JSON string literal a raw quoted value token becomes.
pub open spec fn escaped_literal(v: Seq<u8>) -> Seq<u8> {
    seq![QUOTE] + escape_seq(token_content(v)) + seq![QUOTE]
}

/// The value a closed frame's body yields.
pub open spec fn body_value(b: BodyV) -> JsonV {
    match b {
        BodyV::ObjB(es) => JsonV::ObjV(es),
        BodyV::ArrB(vs) => JsonV::ArrV(vs),
        BodyV::PendB => JsonV::NullV,
    }
}

/// The state marked failed.
pub open spec fn fail(st: BuildV) -> BuildV {
    BuildV { failed: true, ..st }
}

/// The state with an entry appended to the object body of the top frame.
pub open spec fn append_top(st: BuildV, e: EntryV) -> BuildV {
    let top = st.stack.last();
    match top.body {
        BodyV::ObjB(es) => BuildV {
            stack: st.stack.update(
                st.stack.len() - 1,
                FrameV { binding: top.binding, body: BodyV::ObjB(es.push(e)) },
            ),
            ..st
        },
        _ => fail(st),
    }
}

/// The state with a new frame pushed.
pub open spec fn push_frame(st: BuildV, f: FrameV) -> BuildV {
    BuildV { stack: st.stack.push(f), ..st }
}

/// Closes the top frame and attaches its value to the frame below, under
/// its binding: a topic or declared key becomes an object entry, an array
/// element is appended. Anything that cannot attach marks the state failed.
pub open spec fn pop_attach(st: BuildV) -> BuildV {
    if st.stack.len() < 2 {
        fail(st)
    } else {
        let f = st.stack.last();
        let p = st.stack[st.stack.len() - 2];
        let v = body_value(f.body);
        let popped = BuildV { stack: st.stack.drop_last(), ..st };
        match f.binding {
            BindingV::RootB => fail(st),
            BindingV::TopicKeyB(name) => match p.body {
                BodyV::ObjB(_) => append_top(popped, EntryV { key: quote_wrap(name), val: v }),
                _ => fail(st),
            },
            BindingV::DeclaredKeyB(tok) => match p.body {
                BodyV::ObjB(_) => append_top(popped, EntryV { key: tok, val: v }),
                _ => fail(st),
            },
            BindingV::ElementB => match p.body {
                BodyV::ArrB(vs) => BuildV {
                    stack: popped.stack.update(
                        popped.stack.len() - 1,
                        FrameV { binding: p.binding, body: BodyV::ArrB(vs.push(v)) },
                    ),
                    ..st
                },
                _ => fail(st),
            },
        }
    }
}

/// Handles a closing brace or bracket: an open topic frame at the top is
/// closed implicitly first; then the brace must close an object, the
/// bracket an array, and the frame attaches to its parent.
pub open spec fn close_frame(st: BuildV, want_obj: bool) -> BuildV {
    let st1 = if st.stack.len() > 0 && st.stack.last().binding is TopicKeyB {
        pop_attach(st)
    } else {
        st
    };
    if st1.failed || st1.stack.len() < 2 {
        fail(st1)
    } else {
        let top = st1.stack.last();
        let matches_kind = if want_obj {
            top.body is ObjB
        } else {
            top.body is ArrB
        };
        if matches_kind {
            pop_attach(st1)
        } else {
            fail(st1)
        }
    }
}

/// One transition of the builder, for one classified line.
pub open spec fn spec_step(st: BuildV, l: LineV) -> BuildV {
    if st.failed || st.stack.len() == 0 {
        st
    } else {
        match l {
            LineV::IgnoredL => st,
            LineV::KeyValueL(k, v) => {
                let st1 = BuildV { lines_seen: st.lines_seen + 1, ..st };
                append_top(st1, EntryV { key: k, val: JsonV::StrV(escaped_literal(v)) })
            },
            LineV::TopicL(name) => {
                let st1 = BuildV { lines_seen: st.lines_seen + 1, ..st };
                if st1.lines_seen == 1 {
                    st1
                } else {
                    let st2 = BuildV { topics_seen: st1.topics_seen + 1, ..st1 };
                    if st2.stack.last().binding is TopicKeyB {
                        let st3 = pop_attach(st2);
                        if st3.failed {
                            st3
                        } else {
                            push_frame(
                                st3,
                                FrameV {
                                    binding: BindingV::TopicKeyB(name),
                                    body: BodyV::ObjB(Seq::empty()),
                                },
                            )
                        }
                    } else if st2.stack.last().body is ObjB {
                        push_frame(
                            st2,
                            FrameV {
                                binding: BindingV::TopicKeyB(name),
                                body: BodyV::ObjB(Seq::empty()),
                            },
                        )
                    } else {
                        fail(st2)
                    }
                }
            },
            LineV::KeyOnlyL(tok) => {
                let st1 = BuildV { lines_seen: st.lines_seen + 1, ..st };
                if st1.stack.last().body is ObjB {
                    push_frame(
                        st1,
                        FrameV { binding: BindingV::DeclaredKeyB(tok), body: BodyV::PendB },
                    )
                } else {
                    fail(st1)
                }
            },
            LineV::BraceL(b) => {
                let st1 = BuildV { lines_seen: st.lines_seen + 1, ..st };
                match b {
                    Brace::OpenObj => open_frame(st1, true),
                    Brace::OpenArr => open_frame(st1, false),
                    Brace::CloseObj => close_frame(st1, true),
                    Brace::CloseArr => close_frame(st1, false),
                }
            },
        }
    }
}

/// Handles an opening brace or bracket: it starts the value of a pending
/// key, or a new element container inside an array.
pub open spec fn open_frame(st: BuildV, as_obj: bool) -> BuildV {
    let top = st.stack.last();
    let body = if as_obj {
        BodyV::ObjB(Seq::empty())
    } else {
        BodyV::ArrB(Seq::empty())
    };
    match top.body {
        BodyV::PendB => BuildV {
            stack: st.stack.update(
                st.stack.len() - 1,
                FrameV { binding: top.binding, body: body },
            ),
            ..st
        },
        BodyV::ArrB(_) => push_frame(st, FrameV { binding: BindingV::ElementB, body: body }),
        _ => fail(st),
    }
}

/// The state after the first `n` classified lines.
pub open spec fn build_upto(cls: Seq<LineV>, n: int) -> BuildV
    decreases n,
{
    if n <= 0 {
        init_state()
    } else {
        spec_step(build_upto(cls, n - 1), cls[n - 1])
    }
}

/// The finished tree of a final state: an open topic frame is closed by
/// the end of input, and exactly the root frame must remain, its object
/// body becoming the root value. Anything else is a structural error.
pub open spec fn finalize(st: BuildV) -> Result<JsonV, ()> {
    if st.failed || st.stack.len() == 0 {
        Err(())
    } else {
        let st1 = if st.stack.last().binding is TopicKeyB {
            pop_attach(st)
        } else {
            st
        };
        if st1.failed || st1.stack.len() != 1 {
            Err(())
        } else {
            match st1.stack[0].body {
                BodyV::ObjB(es) => Ok(JsonV::ObjV(es)),
                _ => Err(()),
            }
        }
    }
}

/// A classified line the builder can take: a key/value line's value is a
/// quoted token, as the classifier produces it.
pub open spec fn wf_line(l: LineV) -> bool {
    match l {
        LineV::KeyValueL(k, v) => v.len() >= 2 && v[0] == QUOTE && v[v.len() - 1] == QUOTE,
        _ => true,
    }
}

/// Every classified line is one the builder can take.
proof fn lemma_classify_wf(line: Seq<u8>)
    ensures
        wf_line(crate::classify::spec_classify(line)),
{
    let t = crate::text::trim_ws(line);
    if !crate::classify::is_comment_line(line) && crate::classify::is_kv_line(t) {
        crate::text::lemma_find_byte(t, QUOTE, 1);
        crate::text::lemma_skip_ws(t, crate::classify::key_close(t) + 1);
        assert(crate::classify::kv_value(t).len() >= 2);
    }
}

/// Performs one builder transition in place.
#[verifier::loop_isolation(false)]
pub fn step(ctx: &mut BuildContext, line: ParsedLine)
    requires
        old(ctx)@.lines_seen < usize::MAX,
        old(ctx)@.topics_seen < usize::MAX,
        wf_line(line@),
    ensures
        final(ctx)@ == spec_step(old(ctx)@, line@),
{
    if ctx.failed || ctx.stack.len() == 0 {
        return;
    }
    match line {
        ParsedLine::Ignored => {},
        ParsedLine::KeyValue(k, v) => {
            ctx.lines_seen = ctx.lines_seen + 1;
            let lit = escape_string(v.as_slice());
            exec_append_top(ctx, Entry { key: k, val: Value::Str(lit) });
        },
        ParsedLine::Topic(name) => {
            ctx.lines_seen = ctx.lines_seen + 1;
            if ctx.lines_seen != 1 {
                ctx.topics_seen = ctx.topics_seen + 1;
                let is_topic_top = match &ctx.stack[ctx.stack.len() - 1].binding {
                    Binding::TopicKey(_) => true,
                    _ => false,
                };
                if is_topic_top {
                    exec_pop_attach(ctx);
                    if !ctx.failed {
                        ctx.stack.push(
                            Frame {
                                binding: Binding::TopicKey(name),
                                body: Body::Obj(Vec::new()),
                            },
                        );
                        proof {
                            assert(ctx@.stack =~= spec_step(old(ctx)@, line@).stack);
                        }
                    }
                } else {
                    let is_obj_top = match &ctx.stack[ctx.stack.len() - 1].body {
                        Body::Obj(_) => true,
                        _ => false,
                    };
                    if is_obj_top {
                        ctx.stack.push(
                            Frame {
                                binding: Binding::TopicKey(name),
                                body: Body::Obj(Vec::new()),
                            },
                        );
                        proof {
                            assert(ctx@.stack =~= spec_step(old(ctx)@, line@).stack);
                        }
                    } else {
                        ctx.failed = true;
                    }
                }
            }
        },
        ParsedLine::KeyOnly(tok) => {
            ctx.lines_seen = ctx.lines_seen + 1;
            let is_obj_top = match &ctx.stack[ctx.stack.len() - 1].body {
                Body::Obj(_) => true,
                _ => false,
            };
            if is_obj_top {
                ctx.stack.push(Frame { binding: Binding::DeclaredKey(tok), body: Body::Pend });
                proof {
                    assert(ctx@.stack =~= spec_step(old(ctx)@, line@).stack);
                }
            } else {
                ctx.failed = true;
            }
        },
        ParsedLine::BraceTok(b) => {
            ctx.lines_seen = ctx.lines_seen + 1;
            match b {
                Brace::OpenObj => exec_open_frame(ctx, true),
                Brace::OpenArr => exec_open_frame(ctx, false),
                Brace::CloseObj => exec_close_frame(ctx, true),
                Brace::CloseArr => exec_close_frame(ctx, false),
            }
        },
    }
    proof {
        assert(ctx@ =~= spec_step(old(ctx)@, line@));
    }
}

/// Appends an entry to the top frame's object body, or fails the state.
#[verifier::loop_isolation(false)]
fn exec_append_top(ctx: &mut BuildContext, e: Entry)
    requires
        old(ctx)@.stack.len() > 0,
        !old(ctx)@.failed,
    ensures
        final(ctx)@ == append_top(old(ctx)@, e@),
        final(ctx)@.lines_seen == old(ctx)@.lines_seen,
{
    let f = ctx.stack.pop().unwrap();
    let ghost fv = f@;
    match f.body {
        Body::Obj(mut es) => {
            let ghost es0 = es@;
            es.push(e);
            proof {
                assert(fv.body == BodyV::ObjB(entries_view(es0, 0)));
                lemma_entries_view_len(es0, 0);
                lemma_entries_view_len(es@, 0);
                assert(entries_view(es@, 0) =~= entries_view(es0, 0).push(e@)) by {
                    assert(forall|j: int| 0 <= j < es0.len() ==> es@[j] == es0[j]);
                    assert(es@[es0.len() as int] == e);
                }
            }
            ctx.stack.push(Frame { binding: f.binding, body: Body::Obj(es) });
            proof {
                let st0 = old(ctx)@;
                assert(st0.stack.last() == fv);
                assert(ctx@.stack.last() == (FrameV {
                    binding: fv.binding,
                    body: BodyV::ObjB(entries_view(es0, 0).push(e@)),
                }));
                assert(forall|i: int|
                    0 <= i < st0.stack.len() - 1 ==> ctx@.stack[i] == st0.stack[i]);
                assert(ctx@.stack =~= append_top(st0, e@).stack);
                assert(ctx@ =~= append_top(st0, e@));
            }
        },
        _ => {
            ctx.stack.push(f);
            ctx.failed = true;
            proof {
                assert(ctx@.stack =~= old(ctx)@.stack);
                assert(ctx@ =~= append_top(old(ctx)@, e@));
            }
        },
    }
}

/// Closes the top frame and attaches it, or fails the state.
#[verifier::loop_isolation(false)]
fn exec_pop_attach(ctx: &mut BuildContext)
    requires
        !old(ctx)@.failed,
    ensures
        final(ctx)@ == pop_attach(old(ctx)@),
{
    let n = ctx.stack.len();
    if n < 2 {
        ctx.failed = true;
        proof {
            assert(ctx@ =~= pop_attach(old(ctx)@));
        }
        return;
    }
    let can_attach = match (&ctx.stack[n - 1].binding, &ctx.stack[n - 2].body) {
        (Binding::Root, _) => false,
        (Binding::TopicKey(_), Body::Obj(_)) => true,
        (Binding::TopicKey(_), _) => false,
        (Binding::DeclaredKey(_), Body::Obj(_)) => true,
        (Binding::DeclaredKey(_), _) => false,
        (Binding::Element, Body::Arr(_)) => true,
        (Binding::Element, _) => false,
    };
    if !can_attach {
        ctx.failed = true;
        proof {
            assert(ctx@ =~= pop_attach(old(ctx)@));
        }
        return;
    }
    let f = ctx.stack.pop().unwrap();
    let ghost fv = f@;
    let v: Value = match f.body {
        Body::Obj(es) => Value::Obj(es),
        Body::Arr(vs) => Value::Arr(vs),
        Body::Pend => Value::Null,
    };
    proof {
        assert(value_view(v) == body_value(fv.body));
    }
    match f.binding {
        Binding::Root => {
            proof {
                assert(false);
            }
        },
        Binding::TopicKey(name) => {
            let key = quote_wrap_exec(name);
            exec_append_top(ctx, Entry { key, val: v });
            proof {
                assert(ctx@ =~= pop_attach(old(ctx)@));
            }
        },
        Binding::DeclaredKey(tok) => {
            exec_append_top(ctx, Entry { key: tok, val: v });
            proof {
                assert(ctx@ =~= pop_attach(old(ctx)@));
            }
        },
        Binding::Element => {
            let p = ctx.stack.pop().unwrap();
            let ghost pv = p@;
            match p.body {
                Body::Arr(mut vs) => {
                    let ghost vs0 = vs@;
                    vs.push(v);
                    proof {
                        assert(pv.body == BodyV::ArrB(items_view(vs0, 0)));
                        lemma_items_view_len(vs0, 0);
                        lemma_items_view_len(vs@, 0);
                        assert(items_view(vs@, 0) =~= items_view(vs0, 0).push(value_view(v))) by {
                            assert(forall|j: int| 0 <= j < vs0.len() ==> vs@[j] == vs0[j]);
                            assert(vs@[vs0.len() as int] == v);
                        }
                    }
                    ctx.stack.push(Frame { binding: p.binding, body: Body::Arr(vs) });
                    proof {
                        let st0 = old(ctx)@;
                        assert(st0.stack[st0.stack.len() - 2] == pv);
                        assert(ctx@.stack.last() == (FrameV {
                            binding: pv.binding,
                            body: BodyV::ArrB(items_view(vs0, 0).push(body_value(fv.body))),
                        }));
                        assert(forall|i: int|
                            0 <= i < st0.stack.len() - 2 ==> ctx@.stack[i] == st0.stack[i]);
                        assert(ctx@.stack =~= pop_attach(st0).stack);
                        assert(ctx@ =~= pop_attach(st0));
                    }
                },
                _ => {
                    proof {
                        assert(false);
                    }
                },
            }
        },
    }
}

/// Wraps bare topic text into a key token.
pub fn quote_wrap_exec(name: Vec<u8>) -> (r: Vec<u8>)
    ensures
        r@ == quote_wrap(name@),
{
    let mut r: Vec<u8> = Vec::new();
    r.push(QUOTE);
    crate::text::append_bytes(&mut r, name.as_slice());
    r.push(QUOTE);
    proof {
        assert(r@ =~= quote_wrap(name@));
    }
    r
}

/// Handles an opening brace or bracket in place.
#[verifier::loop_isolation(false)]
fn exec_open_frame(ctx: &mut BuildContext, as_obj: bool)
    requires
        old(ctx)@.stack.len() > 0,
        !old(ctx)@.failed,
    ensures
        final(ctx)@ == open_frame(old(ctx)@, as_obj),
{
    let n = ctx.stack.len();
    let top_kind: u8 = match &ctx.stack[n - 1].body {
        Body::Pend => 0,
        Body::Arr(_) => 1,
        Body::Obj(_) => 2,
    };
    if top_kind == 0 {
        let f = ctx.stack.pop().unwrap();
        let nb = if as_obj {
            Body::Obj(Vec::new())
        } else {
            Body::Arr(Vec::new())
        };
        ctx.stack.push(Frame { binding: f.binding, body: nb });
        proof {
            assert(ctx@.stack =~= open_frame(old(ctx)@, as_obj).stack);
            assert(ctx@ =~= open_frame(old(ctx)@, as_obj));
        }
    } else if top_kind == 1 {
        let nb = if as_obj {
            Body::Obj(Vec::new())
        } else {
            Body::Arr(Vec::new())
        };
        ctx.stack.push(Frame { binding: Binding::Element, body: nb });
        proof {
            assert(ctx@.stack =~= open_frame(old(ctx)@, as_obj).stack);
            assert(ctx@ =~= open_frame(old(ctx)@, as_obj));
        }
    } else {
        ctx.failed = true;
        proof {
            assert(ctx@ =~= open_frame(old(ctx)@, as_obj));
        }
    }
}

/// Handles a closing brace or bracket in place.
#[verifier::loop_isolation(false)]
fn exec_close_frame(ctx: &mut BuildContext, want_obj: bool)
    requires
        old(ctx)@.stack.len() > 0,
        !old(ctx)@.failed,
    ensures
        final(ctx)@ == close_frame(old(ctx)@, want_obj),
{
    let is_topic_top = match &ctx.stack[ctx.stack.len() - 1].binding {
        Binding::TopicKey(_) => true,
        _ => false,
    };
    if is_topic_top {
        exec_pop_attach(ctx);
    }
    if ctx.failed || ctx.stack.len() < 2 {
        ctx.failed = true;
        return;
    }
    let matches_kind = match &ctx.stack[ctx.stack.len() - 1].body {
        Body::Obj(_) => want_obj,
        Body::Arr(_) => !want_obj,
        Body::Pend => false,
    };
    if matches_kind {
        exec_pop_attach(ctx);
    } else {
        ctx.failed = true;
    }
}


/// The classifications of a line list.
pub open spec fn classify_all(ls: Seq<Seq<u8>>) -> Seq<LineV> {
    Seq::new(ls.len(), |i: int| crate::classify::spec_classify(ls[i]))
}

/// The counters never outrun the number of lines folded.
proof fn lemma_build_counters(cls: Seq<LineV>, n: int)
    requires
        n >= 0,
    ensures
        0 <= build_upto(cls, n).lines_seen <= n,
        0 <= build_upto(cls, n).topics_seen <= n,
    decreases n,
{
    if n > 0 {
        lemma_build_counters(cls, n - 1);
    }
}

/// Folds a whole preprocessed line list into its value tree: each line is
/// classified and stepped through the state machine, an open topic frame
/// is closed by the end of input, and exactly the synthesized root frame
/// must remain. The result carries the root value and how many topic
/// headers were seen; a structural error that left frames open or closed
/// too many is reported, not repaired.
#[verifier::loop_isolation(false)]
pub fn build_tree(lines: &Vec<Vec<u8>>) -> (r: Result<(Value, usize), ()>)
    ensures
        ({
            let cls = classify_all(crate::text::lines_view(lines@));
            let st = build_upto(cls, cls.len() as int);
            &&& ((r is Ok) <==> (finalize(st) is Ok))
            &&& (r matches Ok(p) ==> value_view(p.0) == finalize(st)->Ok_0 && p.1
                == st.topics_seen)
        }),
{
    let ghost lsv = crate::text::lines_view(lines@);
    let ghost cls = classify_all(lsv);
    let mut stack: Vec<Frame> = Vec::new();
    stack.push(Frame { binding: Binding::Root, body: Body::Obj(Vec::new()) });
    let mut ctx = BuildContext { stack, lines_seen: 0, topics_seen: 0, failed: false };
    proof {
        assert(ctx@.stack =~= init_state().stack);
        assert(ctx@ =~= init_state());
    }
    let n = lines.len();
    let mut i: usize = 0;
    while i < n
        invariant
            0 <= i <= n == lines@.len(),
            ctx@ == build_upto(cls, i as int),
        decreases n - i,
    {
        let pl = classify(lines[i].as_slice());
        proof {
            lemma_classify_wf(lsv[i as int]);
            lemma_build_counters(cls, i as int);
        }
        step(&mut ctx, pl);
        i = i + 1;
    }
    let ghost stf = build_upto(cls, cls.len() as int);
    if ctx.failed || ctx.stack.len() == 0 {
        return Err(());
    }
    let is_topic_top = match &ctx.stack[ctx.stack.len() - 1].binding {
        Binding::TopicKey(_) => true,
        _ => false,
    };
    if is_topic_top {
        exec_pop_attach(&mut ctx);
    }
    if ctx.failed || ctx.stack.len() != 1 {
        return Err(());
    }
    let root = ctx.stack.pop().unwrap();
    match root.body {
        Body::Obj(es) => {
            let v = Value::Obj(es);
            proof {
                assert(value_view(v) == finalize(stf)->Ok_0);
            }
            Ok((v, ctx.topics_seen))
        },
        _ => Err(()),
    }
}


/// The state shape while a single-topic input folds: after the first
/// key/value line and the topic header, the stack is the root frame plus
/// the topic's open object frame, and stays so under key/value lines.
proof fn lemma_single_topic_state(cls: Seq<LineV>, name: Seq<u8>, n: int)
    requires
        cls.len() >= 2,
        cls[0] is KeyValueL,
        cls[1] == LineV::TopicL(name),
        forall|i: int| 2 <= i < cls.len() ==> cls[i] is KeyValueL,
        2 <= n <= cls.len(),
    ensures
        ({
            let st = build_upto(cls, n);
            &&& !st.failed
            &&& st.stack.len() == 2
            &&& st.stack[0].binding == BindingV::RootB
            &&& st.stack[0].body is ObjB
            &&& st.stack[1].binding == BindingV::TopicKeyB(name)
            &&& st.stack[1].body is ObjB
            &&& st.lines_seen == n
            &&& st.topics_seen == 1
        }),
    decreases n,
{
    if n == 2 {
        let st0 = init_state();
        let st1 = spec_step(st0, cls[0]);
        assert(!st1.failed && st1.stack.len() == 1 && st1.stack[0].binding == BindingV::RootB
            && st1.stack[0].body is ObjB && st1.lines_seen == 1 && st1.topics_seen == 0);
        let st2 = spec_step(st1, cls[1]);
        assert(build_upto(cls, 0) == st0);
        assert(build_upto(cls, 1) == st1);
        assert(build_upto(cls, 2) == st2);
    } else {
        lemma_single_topic_state(cls, name, n - 1);
        let st = build_upto(cls, n - 1);
        let st2 = spec_step(st, cls[n - 1]);
        assert(st2.stack[0] == st.stack[0]);
        assert(build_upto(cls, n) == st2);
    }
}

/// A valid single-topic input — a first key/value line, exactly one topic
/// header, then only key/value lines — builds an object that holds a key
/// exactly equal to the topic header's text, quote-wrapped and verbatim.
pub proof fn lemma_single_topic(cls: Seq<LineV>, name: Seq<u8>)
    requires
        cls.len() >= 2,
        cls[0] is KeyValueL,
        cls[1] == LineV::TopicL(name),
        forall|i: int| 2 <= i < cls.len() ==> cls[i] is KeyValueL,
    ensures
        ({
            let st = build_upto(cls, cls.len() as int);
            &&& finalize(st) is Ok
            &&& finalize(st)->Ok_0 is ObjV
            &&& exists|j: int|
                0 <= j < finalize(st)->Ok_0->ObjV_0.len() && #[trigger] finalize(
                    st,
                )->Ok_0->ObjV_0[j].key == quote_wrap(name)
        }),
{
    lemma_single_topic_state(cls, name, cls.len() as int);
    let st = build_upto(cls, cls.len() as int);
    let st1 = pop_attach(st);
    assert(!st1.failed && st1.stack.len() == 1);
    let es = st1.stack[0].body->ObjB_0;
    assert(finalize(st) == Result::<JsonV, ()>::Ok(JsonV::ObjV(es)));
    assert(es[es.len() - 1].key == quote_wrap(name));
    let obj = finalize(st)->Ok_0->ObjV_0;
    assert(obj[obj.len() - 1].key == quote_wrap(name));
    assert(exists|j: int| 0 <= j < obj.len() && #[trigger] obj[j].key == quote_wrap(name));
}

} // verus!
