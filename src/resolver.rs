//! Works out which user a command is aimed at, and what text it carries, from the
//! command message: a mention annotation, a `@handle`, a numeric identifier or the
//! message it replies to, tried in that order.
//!
//! Two answers come from outside the message: who owns a `@handle` (the entity
//! directory) and whether the resolved user can be addressed directly (the
//! transport). [`plan`] says what to look up, [`complete`] and [`guard`] take the
//! answers, and [`extract_user_and_text`] runs all three once both answers are known.

use vstd::prelude::*;
use vstd::slice::slice_subrange;
use crate::text::{
    chars_of, find_ws, first_non_ws_from, first_ws_from, lower_of, lowercase, parse_u64,
    parse_u64_spec, skip_ws,
};

verus! {

/// An annotation marking `length` characters from `offset` of the message text as a
/// reference to the user `user_id`.
#[derive(Clone, Copy, Debug, PartialEq, Eq)]
pub struct Mention {
    pub offset: usize,
    pub length: usize,
    pub user_id: u64,
}

/// The message that a command replies to.
pub struct RepliedMessage {
    pub author_id: Option<u64>,
    pub text: Option<String>,
}

/// A command message: the command token, then optional argument text.
pub struct CommandMessage {
    pub text: String,
    pub mentions: Vec<Mention>,
    pub reply_to: Option<RepliedMessage>,
}

/// Who a command is aimed at, and the free text that goes with it.
pub struct ResolvedArguments {
    pub target_user_id: Option<u64>,
    pub payload: Option<String>,
}

/// What [`plan`] found: either the arguments themselves, or a handle whose owner
/// the entity directory has to name first.
pub enum ResolutionStep {
    Resolved(ResolvedArguments),
    LookupHandle { handle: String, payload: Option<String> },
}

#[derive(Clone, Copy, Debug, PartialEq, Eq, Structural)]
pub enum ResolveError {
    /// A `@handle` that no known user carries.
    HandleNotFound,
    /// A user that the transport cannot address directly.
    NotAddressable,
}

pub type ArgsView = (Option<u64>, Option<Seq<char>>);

pub enum StepView {
    Resolved(ArgsView),
    Lookup(Seq<char>, Option<Seq<char>>),
}

pub open spec fn opt_view(o: Option<String>) -> Option<Seq<char>> {
    match o {
        Some(s) => Some(s@),
        None => None,
    }
}

impl View for ResolvedArguments {
    type V = ArgsView;

    open spec fn view(&self) -> ArgsView {
        (self.target_user_id, opt_view(self.payload))
    }
}

impl View for ResolutionStep {
    type V = StepView;

    open spec fn view(&self) -> StepView {
        match self {
            ResolutionStep::Resolved(a) => StepView::Resolved(a@),
            ResolutionStep::LookupHandle { handle, payload } => StepView::Lookup(
                handle@,
                opt_view(*payload),
            ),
        }
    }
}

pub open spec fn result_view(r: Result<ResolvedArguments, ResolveError>) -> Result<
    ArgsView,
    ResolveError,
> {
    match r {
        Ok(a) => Ok(a@),
        Err(e) => Err(e),
    }
}

/// End of the command token.
pub open spec fn command_end(t: Seq<char>) -> int {
    first_ws_from(t, 0)
}

/// Start of the first argument token (the length when there is none).
pub open spec fn argument_start(t: Seq<char>) -> int {
    first_non_ws_from(t, command_end(t))
}

/// The command token stands alone, at most followed by whitespace.
pub open spec fn no_arguments(t: Seq<char>) -> bool {
    argument_start(t) >= t.len()
}

/// End of the first argument token.
pub open spec fn argument_end(t: Seq<char>) -> int {
    first_ws_from(t, argument_start(t))
}

pub open spec fn first_argument(t: Seq<char>) -> Seq<char> {
    t.subrange(argument_start(t), argument_end(t))
}

/// The text after position `e` with the whitespace run there removed; absent when
/// nothing but whitespace follows.
pub open spec fn tail_after(t: Seq<char>, e: int) -> Option<Seq<char>> {
    let s = first_non_ws_from(t, e);
    if s < t.len() {
        Some(t.subrange(s, t.len() as int))
    } else {
        None
    }
}

pub open spec fn anchored(m: Mention, at: int, len: int) -> bool {
    m.offset == at && m.offset + m.length <= len
}

/// The first mention, from index `k` on, whose span starts at `at` and lies within
/// a text of length `len`.
pub open spec fn first_anchored_from(ms: Seq<Mention>, at: int, len: int, k: int) -> Option<
    Mention,
>
    decreases ms.len() - k,
{
    if k < 0 || k >= ms.len() {
        None
    } else if anchored(ms[k], at, len) {
        Some(ms[k])
    } else {
        first_anchored_from(ms, at, len, k + 1)
    }
}

/// Text after the first whitespace run of a quoted message; empty for a single token.
pub open spec fn quoted_tail(q: Seq<char>) -> Seq<char> {
    let w = first_ws_from(q, 0);
    if w >= q.len() {
        Seq::empty()
    } else {
        q.subrange(first_non_ws_from(q, w), q.len() as int)
    }
}

/// The arguments taken from the replied-to message: its author, and its text
/// after the first token.
pub open spec fn reply_view(r: Option<RepliedMessage>) -> ArgsView {
    match r {
        None => (None, None),
        Some(m) => match m.author_id {
            None => (None, None),
            Some(u) => (
                Some(u),
                match m.text {
                    None => None,
                    Some(q) => Some(quoted_tail(q@)),
                },
            ),
        },
    }
}

/// The strategies in order of priority: no argument at all falls back to the reply;
/// then a mention anchored where the argument text begins; a leading `@handle`;
/// a leading numeric identifier. When none of these applies the argument text is
/// the payload and no user is targeted.
pub open spec fn plan_view(msg: CommandMessage) -> StepView {
    let t = msg.text@;
    let c = command_end(t);
    let a = argument_start(t);
    if no_arguments(t) {
        StepView::Resolved(reply_view(msg.reply_to))
    } else {
        match first_anchored_from(msg.mentions@, c + 1, t.len() as int, 0) {
            Some(m) => StepView::Resolved(
                (Some(m.user_id), Some(t.subrange(m.offset + m.length, t.len() as int))),
            ),
            None => {
                let tok = first_argument(t);
                let tail = tail_after(t, argument_end(t));
                if tok[0] == '@' {
                    StepView::Lookup(lower_of(tok.drop_first()), tail)
                } else {
                    match parse_u64_spec(tok) {
                        Some(n) => StepView::Resolved((Some(n), tail)),
                        None => StepView::Resolved((None, Some(t.subrange(a, t.len() as int)))),
                    }
                }
            },
        }
    }
}

pub open spec fn complete_view(step: StepView, owner: Option<u64>) -> Result<
    ArgsView,
    ResolveError,
> {
    match step {
        StepView::Resolved(a) => Ok(a),
        StepView::Lookup(_, p) => match owner {
            Some(id) => Ok((Some(id), p)),
            None => Err(ResolveError::HandleNotFound),
        },
    }
}

pub open spec fn guard_view(a: ArgsView, addressable: bool) -> Result<ArgsView, ResolveError> {
    if a.0 is Some && !addressable {
        Err(ResolveError::NotAddressable)
    } else {
        Ok(a)
    }
}

pub open spec fn resolve_view(msg: CommandMessage, owner: Option<u64>, addressable: bool) -> Result<
    ArgsView,
    ResolveError,
> {
    match complete_view(plan_view(msg), owner) {
        Ok(a) => guard_view(a, addressable),
        Err(e) => Err(e),
    }
}

/// Without any argument the reply alone decides: its author is the target, and
/// with no reply nothing is resolved; no handle or number is looked for.
pub proof fn lemma_no_arguments_use_reply(msg: CommandMessage)
    requires
        no_arguments(msg.text@),
    ensures
        plan_view(msg) == StepView::Resolved(reply_view(msg.reply_to)),
        msg.reply_to is None ==> plan_view(msg) == StepView::Resolved((None, None)),
{
}

/// Once the message carries an argument, the message replied to plays no part:
/// two messages with the same text and mentions resolve alike.
pub proof fn lemma_reply_only_without_arguments(m1: CommandMessage, m2: CommandMessage)
    requires
        m1.text@ == m2.text@,
        m1.mentions@ == m2.mentions@,
        !no_arguments(m1.text@),
    ensures
        plan_view(m1) == plan_view(m2),
{
}

/// A leading numeric argument is the target, whatever the message replies to, and
/// the payload is the text after it.
pub proof fn lemma_numeric_target(msg: CommandMessage, n: u64)
    requires
        !no_arguments(msg.text@),
        first_anchored_from(msg.mentions@, command_end(msg.text@) + 1, msg.text@.len() as int, 0)
            is None,
        parse_u64_spec(first_argument(msg.text@)) == Some(n),
    ensures
        plan_view(msg) == StepView::Resolved(
            (Some(n), tail_after(msg.text@, argument_end(msg.text@))),
        ),
{
    let tok = first_argument(msg.text@);
    let d = crate::text::unsigned_part(tok);
    if tok[0] == '@' {
        assert(d == tok);
        assert(crate::text::is_digit(d[0]));
    }
}

fn substring(s: &str, from: usize, to: usize) -> (r: String)
    requires
        from <= to <= s@.len(),
    ensures
        r@ == s@.subrange(from as int, to as int),
{
    String::from_str(s.substring_char(from, to))
}

fn tail_from(s: &str, t: &Vec<char>, e: usize) -> (r: Option<String>)
    requires
        t@ == s@,
        e <= t@.len(),
    ensures
        opt_view(r) == tail_after(s@, e as int),
{
    let k = skip_ws(t, e);
    if k < t.len() {
        Some(substring(s, k, t.len()))
    } else {
        None
    }
}

fn find_anchored(ms: &Vec<Mention>, at: usize, len: usize) -> (r: Option<Mention>)
    ensures
        r == first_anchored_from(ms@, at as int, len as int, 0),
        r matches Some(m) ==> m.offset == at && m.offset + m.length <= len,
{
    let mut k: usize = 0;
    while k < ms.len()
        invariant
            k <= ms@.len(),
            first_anchored_from(ms@, at as int, len as int, 0) == first_anchored_from(
                ms@,
                at as int,
                len as int,
                k as int,
            ),
        decreases ms@.len() - k,
    {
        let m = ms[k];
        if m.offset == at && m.length <= len && m.offset <= len - m.length {
            return Some(m);
        }
        k = k + 1;
    }
    None
}

/// The arguments given by the message replied to: its author and the text after
/// its first token.
pub fn id_from_reply(r: &Option<RepliedMessage>) -> (a: ResolvedArguments)
    ensures
        a@ == reply_view(*r),
{
    match r {
        None => ResolvedArguments { target_user_id: None, payload: None },
        Some(m) => match m.author_id {
            None => ResolvedArguments { target_user_id: None, payload: None },
            Some(u) => {
                let payload = match &m.text {
                    None => None,
                    Some(q) => {
                        let qs = q.as_str();
                        let qt = chars_of(qs);
                        let w = find_ws(&qt, 0);
                        if w >= qt.len() {
                            Some(String::new())
                        } else {
                            let k = skip_ws(&qt, w);
                            Some(substring(qs, k, qt.len()))
                        }
                    },
                };
                proof {
                    if m.text is Some && first_ws_from(m.text->0@, 0) >= m.text->0@.len() {
                        assert(payload->0@ =~= Seq::<char>::empty());
                    }
                }
                ResolvedArguments { target_user_id: Some(u), payload }
            },
        },
    }
}

/// Applies the strategies in order to the message alone.
pub fn plan(msg: &CommandMessage) -> (r: ResolutionStep)
    ensures
        r@ == plan_view(*msg),
{
    let s = msg.text.as_str();
    let t = chars_of(s);
    let c = find_ws(&t, 0);
    let a = skip_ws(&t, c);
    if a >= t.len() {
        return ResolutionStep::Resolved(id_from_reply(&msg.reply_to));
    }
    match find_anchored(&msg.mentions, c + 1, t.len()) {
        Some(m) => {
            let payload = substring(s, m.offset + m.length, t.len());
            ResolutionStep::Resolved(
                ResolvedArguments { target_user_id: Some(m.user_id), payload: Some(payload) },
            )
        },
        None => {
            let e = find_ws(&t, a);
            let tail = tail_from(s, &t, e);
            if t[a] == '@' {
                let handle = lowercase(s.substring_char(a + 1, e));
                proof {
                    assert(s@.subrange(a + 1, e as int) =~= s@.subrange(a as int, e as int).drop_first());
                }
                ResolutionStep::LookupHandle { handle, payload: tail }
            } else {
                let tok = slice_subrange(t.as_slice(), a, e);
                proof {
                    assert(tok@ =~= s@.subrange(a as int, e as int));
                }
                match parse_u64(tok) {
                    Some(n) => ResolutionStep::Resolved(
                        ResolvedArguments { target_user_id: Some(n), payload: tail },
                    ),
                    None => ResolutionStep::Resolved(
                        ResolvedArguments {
                            target_user_id: None,
                            payload: Some(substring(s, a, t.len())),
                        },
                    ),
                }
            }
        },
    }
}

/// Finishes a step with the entity directory's answer for its handle: the owner's
/// identifier, or `None` when no known user carries it. A step that needed no
/// lookup passes through unchanged.
pub fn complete(step: ResolutionStep, owner: Option<u64>) -> (r: Result<
    ResolvedArguments,
    ResolveError,
>)
    ensures
        result_view(r) == complete_view(step@, owner),
{
    match step {
        ResolutionStep::Resolved(a) => Ok(a),
        ResolutionStep::LookupHandle { handle: _, payload } => match owner {
            Some(id) => Ok(ResolvedArguments { target_user_id: Some(id), payload }),
            None => Err(ResolveError::HandleNotFound),
        },
    }
}

/// Refuses a resolved target that the transport cannot address directly.
pub fn guard(args: ResolvedArguments, addressable: bool) -> (r: Result<
    ResolvedArguments,
    ResolveError,
>)
    ensures
        result_view(r) == guard_view(args@, addressable),
{
    if args.target_user_id.is_some() && !addressable {
        Err(ResolveError::NotAddressable)
    } else {
        Ok(args)
    }
}

/// Resolves a command's target and payload, given the entity directory's answer
/// for the handle that [`plan`] asks about (ignored when it asks about none) and
/// whether the resolved target can be addressed directly.
pub fn extract_user_and_text(msg: &CommandMessage, handle_owner: Option<u64>, addressable: bool) -> (r: Result<
    ResolvedArguments,
    ResolveError,
>)
    ensures
        result_view(r) == resolve_view(*msg, handle_owner, addressable),
{
    match complete(plan(msg), handle_owner) {
        Ok(a) => guard(a, addressable),
        Err(e) => Err(e),
    }
}

} // verus!
