use vstd::prelude::*;
use vstd::string::StringExecFns;

use crate::ast::{Expr, ExprKind, LocalDecl, Stmt, StmtKind, TypeIndex, TypeKind};
use crate::error::{ParseError, ParseResult};
use crate::parser::{
    atom_token, is_type, lemma_is_type_prefix, lemma_parser_steps_trans, opt_type_eq, parser_steps,
    Parser,
};
use crate::source_file::{Located, Location};
use crate::token::{Token, TokenKind};

verus! {

/// One frame of the statement context chain.  A frame is pushed for exactly
/// the syntactic duration of the construct it represents and popped when that
/// construct's parse returns.
pub enum StmtFrame {
    /// Entry into a `valof` block; the slot is the block's lazily-bound result
    /// type: not yet fixed, or fixed (to a possibly still unresolved type) by
    /// the first `resultis`.
    ValOf { result_type: Option<Option<TypeIndex>> },
    /// A brace-delimited statement sequence; statements directly inside it
    /// must be terminator-delimited.
    Block,
    /// A compound chain not itself inside a fresh block; the terminator
    /// requirement is deferred to the enclosing context.
    NoBlock,
    /// The top of a function body; the slot is the return type, bound by the
    /// first `return`.
    Function { return_type: Option<Option<TypeIndex>> },
    /// The body of a `while`, `until` or `for`.
    Loop,
    /// The body of a `switchon`: where its first `default:` was seen, if
    /// anywhere, and the static type of the switch condition, if known.
    SwitchOn { default_case: Option<Location>, condition_type: Option<TypeIndex> },
}

/// The type slot of a `ValOf` or `Function` frame; other frames have none.
pub open spec fn frame_cell(f: StmtFrame) -> Option<Option<Option<TypeIndex>>> {
    match f {
        StmtFrame::ValOf { result_type } => Some(result_type),
        StmtFrame::Function { return_type } => Some(return_type),
        _ => None,
    }
}

/// How one frame may change while a nested statement parses: its variant and
/// switch condition stay, and its slots are only ever bound, never reset.
pub open spec fn frame_evolved(a: StmtFrame, b: StmtFrame) -> bool {
    match (a, b) {
        (StmtFrame::ValOf { result_type: ca }, StmtFrame::ValOf { result_type: cb }) => ca
            is Some ==> cb == ca,
        (StmtFrame::Function { return_type: ca }, StmtFrame::Function { return_type: cb }) => ca
            is Some ==> cb == ca,
        (StmtFrame::Block, StmtFrame::Block) => true,
        (StmtFrame::NoBlock, StmtFrame::NoBlock) => true,
        (StmtFrame::Loop, StmtFrame::Loop) => true,
        (
            StmtFrame::SwitchOn { default_case: da, condition_type: ta },
            StmtFrame::SwitchOn { default_case: db, condition_type: tb },
        ) => ta == tb && (da is Some ==> db == da),
        _ => false,
    }
}

/// How a whole context chain may change while a statement parses: no frame
/// appears or disappears, and each frame only evolves.
pub open spec fn ctx_evolved(a: Seq<StmtFrame>, b: Seq<StmtFrame>) -> bool {
    &&& a.len() == b.len()
    &&& forall|i: int| 0 <= i < a.len() ==> frame_evolved(#[trigger] a[i], #[trigger] b[i])
}

pub proof fn lemma_ctx_evolved_refl(a: Seq<StmtFrame>)
    ensures
        ctx_evolved(a, a),
{
    assert forall|i: int| 0 <= i < a.len() implies frame_evolved(#[trigger] a[i], a[i]) by {}
}

pub proof fn lemma_ctx_evolved_trans(a: Seq<StmtFrame>, b: Seq<StmtFrame>, c: Seq<StmtFrame>)
    requires
        ctx_evolved(a, b),
        ctx_evolved(b, c),
    ensures
        ctx_evolved(a, c),
{
    assert forall|i: int| 0 <= i < a.len() implies frame_evolved(#[trigger] a[i], c[i]) by {
        assert(frame_evolved(a[i], b[i]));
        assert(frame_evolved(b[i], c[i]));
    }
}

/// No `ValOf` frame of `a` has been touched at all: an expression binds at
/// most the slots of frames it pushed itself, since any statement it contains
/// sits under a fresh `ValOf` frame that shadows the older ones.
pub open spec fn valof_cells_stable(a: Seq<StmtFrame>, b: Seq<StmtFrame>) -> bool {
    forall|i: int| 0 <= i < a.len() && a[i] is ValOf ==> b[i] == #[trigger] a[i]
}

/// Every `ValOf` frame of `a` except the one a `resultis` here would bind is
/// untouched.
pub open spec fn untouched_valof_cells(a: Seq<StmtFrame>, b: Seq<StmtFrame>) -> bool {
    forall|i: int|
        0 <= i < a.len() && a[i] is ValOf && spec_valof_index(a) != Some(i) ==> b[i] == #[trigger] a[i]
}

/// Popping the frame a parse pushed undoes the push: what evolved from the
/// extended chain, shorn of its top, evolved from the original chain.
pub proof fn lemma_evolved_unpush(a: Seq<StmtFrame>, f: StmtFrame, b: Seq<StmtFrame>)
    requires
        ctx_evolved(a.push(f), b),
    ensures
        ctx_evolved(a, b.drop_last()),
{
    assert forall|i: int| 0 <= i < a.len() implies frame_evolved(#[trigger] a[i], b.drop_last()[i]) by {
        assert(a.push(f)[i] == a[i]);
        assert(frame_evolved(a.push(f)[i], b[i]));
        assert(b.drop_last()[i] == b[i]);
    }
}

/// The frame answering a `resultis`: the nearest `ValOf`, unless a `Function`
/// frame stands in the way.
pub open spec fn spec_valof_index(fs: Seq<StmtFrame>) -> Option<int>
    decreases fs.len(),
{
    if fs.len() == 0 {
        None
    } else {
        match fs.last() {
            StmtFrame::ValOf { .. } => Some(fs.len() - 1),
            StmtFrame::Function { .. } => None,
            _ => spec_valof_index(fs.drop_last()),
        }
    }
}

/// The frame answering a `return`: the nearest `Function`, whatever stands in
/// between.
pub open spec fn spec_function_index(fs: Seq<StmtFrame>) -> Option<int>
    decreases fs.len(),
{
    if fs.len() == 0 {
        None
    } else {
        match fs.last() {
            StmtFrame::Function { .. } => Some(fs.len() - 1),
            _ => spec_function_index(fs.drop_last()),
        }
    }
}

/// The frame answering `case`, `default:` and `endcase`: the nearest
/// `SwitchOn`, unless a `Function` frame stands in the way.
pub open spec fn spec_switch_index(fs: Seq<StmtFrame>) -> Option<int>
    decreases fs.len(),
{
    if fs.len() == 0 {
        None
    } else {
        match fs.last() {
            StmtFrame::SwitchOn { .. } => Some(fs.len() - 1),
            StmtFrame::Function { .. } => None,
            _ => spec_switch_index(fs.drop_last()),
        }
    }
}

/// Whether a statement parsed in this context must end in a terminator: true
/// exactly when the nearest frame that is not a loop or switch body is a
/// `Block`.
pub open spec fn spec_require_semicolon(fs: Seq<StmtFrame>) -> bool
    decreases fs.len(),
{
    if fs.len() == 0 {
        false
    } else {
        match fs.last() {
            StmtFrame::Block => true,
            StmtFrame::Loop => spec_require_semicolon(fs.drop_last()),
            StmtFrame::SwitchOn { .. } => spec_require_semicolon(fs.drop_last()),
            _ => false,
        }
    }
}

/// Whether a loop body is reachable without crossing a `Function` frame.
pub open spec fn spec_in_loop(fs: Seq<StmtFrame>) -> bool
    decreases fs.len(),
{
    if fs.len() == 0 {
        false
    } else {
        match fs.last() {
            StmtFrame::Loop => true,
            StmtFrame::Function { .. } => false,
            _ => spec_in_loop(fs.drop_last()),
        }
    }
}

/// The statement context chain: the stack of frames of the control constructs
/// the parser currently stands in, innermost last.  An empty chain is the
/// root context.
pub struct StmtContext {
    frames: Vec<StmtFrame>,
}

impl View for StmtContext {
    type V = Seq<StmtFrame>;

    closed spec fn view(&self) -> Seq<StmtFrame> {
        self.frames@
    }
}

impl StmtContext {
    /// The root context: no enclosing construct at all.
    pub fn root() -> (r: StmtContext)
        ensures
            r@ == Seq::<StmtFrame>::empty(),
    {
        StmtContext { frames: Vec::new() }
    }

    pub fn enter(&mut self, f: StmtFrame)
        ensures
            final(self)@ == old(self)@.push(f),
    {
        self.frames.push(f);
    }

    pub fn leave(&mut self)
        requires
            old(self)@.len() > 0,
        ensures
            final(self)@ == old(self)@.drop_last(),
    {
        let _ = self.frames.pop();
    }

    /// The index of the `ValOf` frame a `resultis` in this context binds to,
    /// if one is reachable.
    pub fn last_valof_type(&self) -> (r: Option<usize>)
        ensures
            match r {
                Some(i) => spec_valof_index(self@) == Some(i as int),
                None => spec_valof_index(self@) is None,
            },
    {
        let mut j: usize = self.frames.len();
        proof {
            assert(self@.take(self@.len() as int) =~= self@);
        }
        while j > 0
            invariant
                0 <= j <= self@.len(),
                spec_valof_index(self@) == spec_valof_index(self@.take(j as int)),
            decreases j,
        {
            proof {
                assert(self@.take(j as int).last() == self@[j - 1]);
                assert(self@.take(j as int).drop_last() =~= self@.take(j - 1));
            }
            match &self.frames[j - 1] {
                StmtFrame::ValOf { .. } => {
                    return Some(j - 1);
                },
                StmtFrame::Function { .. } => {
                    return None;
                },
                _ => {
                    j -= 1;
                },
            }
        }
        proof {
            assert(self@.take(0) =~= Seq::<StmtFrame>::empty());
        }
        None
    }

    /// The index of the `Function` frame a `return` in this context binds to,
    /// if one is reachable.
    pub fn function_return_type(&self) -> (r: Option<usize>)
        ensures
            match r {
                Some(i) => spec_function_index(self@) == Some(i as int),
                None => spec_function_index(self@) is None,
            },
    {
        let mut j: usize = self.frames.len();
        proof {
            assert(self@.take(self@.len() as int) =~= self@);
        }
        while j > 0
            invariant
                0 <= j <= self@.len(),
                spec_function_index(self@) == spec_function_index(self@.take(j as int)),
            decreases j,
        {
            proof {
                assert(self@.take(j as int).last() == self@[j - 1]);
                assert(self@.take(j as int).drop_last() =~= self@.take(j - 1));
            }
            match &self.frames[j - 1] {
                StmtFrame::Function { .. } => {
                    return Some(j - 1);
                },
                _ => {
                    j -= 1;
                },
            }
        }
        proof {
            assert(self@.take(0) =~= Seq::<StmtFrame>::empty());
        }
        None
    }

    /// Whether a statement parsed in this context must end in a terminator.
    pub fn require_semicolon(&self) -> (r: bool)
        ensures
            r == spec_require_semicolon(self@),
    {
        let mut j: usize = self.frames.len();
        proof {
            assert(self@.take(self@.len() as int) =~= self@);
        }
        while j > 0
            invariant
                0 <= j <= self@.len(),
                spec_require_semicolon(self@) == spec_require_semicolon(self@.take(j as int)),
            decreases j,
        {
            proof {
                assert(self@.take(j as int).last() == self@[j - 1]);
                assert(self@.take(j as int).drop_last() =~= self@.take(j - 1));
            }
            match &self.frames[j - 1] {
                StmtFrame::Block => {
                    return true;
                },
                StmtFrame::Loop => {
                    j -= 1;
                },
                StmtFrame::SwitchOn { .. } => {
                    j -= 1;
                },
                _ => {
                    return false;
                },
            }
        }
        proof {
            assert(self@.take(0) =~= Seq::<StmtFrame>::empty());
        }
        false
    }

    /// Whether the context stands inside a loop of the enclosing function.
    pub fn in_loop(&self) -> (r: bool)
        ensures
            r == spec_in_loop(self@),
    {
        let mut j: usize = self.frames.len();
        proof {
            assert(self@.take(self@.len() as int) =~= self@);
        }
        while j > 0
            invariant
                0 <= j <= self@.len(),
                spec_in_loop(self@) == spec_in_loop(self@.take(j as int)),
            decreases j,
        {
            proof {
                assert(self@.take(j as int).last() == self@[j - 1]);
                assert(self@.take(j as int).drop_last() =~= self@.take(j - 1));
            }
            match &self.frames[j - 1] {
                StmtFrame::Loop => {
                    return true;
                },
                StmtFrame::Function { .. } => {
                    return false;
                },
                _ => {
                    j -= 1;
                },
            }
        }
        proof {
            assert(self@.take(0) =~= Seq::<StmtFrame>::empty());
        }
        false
    }

    /// The index of the `SwitchOn` frame a `case`, `default:` or `endcase` in
    /// this context binds to, if one is reachable.
    pub fn in_switchon(&self) -> (r: Option<usize>)
        ensures
            match r {
                Some(i) => spec_switch_index(self@) == Some(i as int),
                None => spec_switch_index(self@) is None,
            },
    {
        let mut j: usize = self.frames.len();
        proof {
            assert(self@.take(self@.len() as int) =~= self@);
        }
        while j > 0
            invariant
                0 <= j <= self@.len(),
                spec_switch_index(self@) == spec_switch_index(self@.take(j as int)),
            decreases j,
        {
            proof {
                assert(self@.take(j as int).last() == self@[j - 1]);
                assert(self@.take(j as int).drop_last() =~= self@.take(j - 1));
            }
            match &self.frames[j - 1] {
                StmtFrame::SwitchOn { .. } => {
                    return Some(j - 1);
                },
                StmtFrame::Function { .. } => {
                    return None;
                },
                _ => {
                    j -= 1;
                },
            }
        }
        proof {
            assert(self@.take(0) =~= Seq::<StmtFrame>::empty());
        }
        None
    }

    /// The type slot of the `ValOf` or `Function` frame at `i`.
    pub fn cell(&self, i: usize) -> (r: Option<Option<TypeIndex>>)
        requires
            i < self@.len(),
            frame_cell(self@[i as int]) is Some,
        ensures
            Some(r) == frame_cell(self@[i as int]),
    {
        match &self.frames[i] {
            StmtFrame::ValOf { result_type } => *result_type,
            StmtFrame::Function { return_type } => *return_type,
            _ => None,
        }
    }

    /// Binds the type slot of the `ValOf` or `Function` frame at `i`.  A slot
    /// is bound at most once: it must still be empty.
    pub fn bind_cell(&mut self, i: usize, t: Option<TypeIndex>)
        requires
            i < old(self)@.len(),
            frame_cell(old(self)@[i as int]) == Some(None::<Option<TypeIndex>>),
        ensures
            final(self)@.len() == old(self)@.len(),
            frame_cell(final(self)@[i as int]) == Some(Some(t)),
            forall|j: int| 0 <= j < old(self)@.len() && j != i ==> final(self)@[j] == old(self)@[j],
            ctx_evolved(old(self)@, final(self)@),
            match old(self)@[i as int] {
                StmtFrame::ValOf { .. } => final(self)@[i as int] == (StmtFrame::ValOf {
                    result_type: Some(t),
                }),
                _ => final(self)@[i as int] == (StmtFrame::Function { return_type: Some(t) }),
            },
    {
        let replacement = match &self.frames[i] {
            StmtFrame::ValOf { .. } => StmtFrame::ValOf { result_type: Some(t) },
            _ => StmtFrame::Function { return_type: Some(t) },
        };
        self.frames.set(i, replacement);
    }

    /// Where the first `default:` of the `SwitchOn` frame at `i` was seen.
    pub fn switch_default(&self, i: usize) -> (r: Option<Location>)
        requires
            i < self@.len(),
            self@[i as int] is SwitchOn,
        ensures
            self@[i as int] matches StmtFrame::SwitchOn { default_case, .. } && r == default_case,
    {
        match &self.frames[i] {
            StmtFrame::SwitchOn { default_case, .. } => *default_case,
            _ => None,
        }
    }

    /// The static type of the condition of the `SwitchOn` frame at `i`.
    pub fn switch_condition_type(&self, i: usize) -> (r: Option<TypeIndex>)
        requires
            i < self@.len(),
            self@[i as int] is SwitchOn,
        ensures
            self@[i as int] matches StmtFrame::SwitchOn { condition_type, .. } && r
                == condition_type,
    {
        match &self.frames[i] {
            StmtFrame::SwitchOn { condition_type, .. } => *condition_type,
            _ => None,
        }
    }

    /// Records the first `default:` of the `SwitchOn` frame at `i`.  It must
    /// not have one yet.
    pub fn record_switch_default(&mut self, i: usize, loc: Location)
        requires
            i < old(self)@.len(),
            old(self)@[i as int] matches StmtFrame::SwitchOn { default_case, .. } && default_case
                is None,
        ensures
            final(self)@.len() == old(self)@.len(),
            forall|j: int| 0 <= j < old(self)@.len() && j != i ==> final(self)@[j] == old(self)@[j],
            ctx_evolved(old(self)@, final(self)@),
            old(self)@[i as int] matches StmtFrame::SwitchOn { condition_type, .. } && final(self)@[i as int]
                == (StmtFrame::SwitchOn { default_case: Some(loc), condition_type: condition_type }),
    {
        let condition_type = match &self.frames[i] {
            StmtFrame::SwitchOn { condition_type, .. } => *condition_type,
            _ => None,
        };
        self.frames.set(i, StmtFrame::SwitchOn { default_case: Some(loc), condition_type });
    }
}


impl StmtContext {
    /// How many frames the chain currently holds.
    pub fn depth(&self) -> (r: usize)
        ensures
            r == self@.len(),
    {
        self.frames.len()
    }
}

/// Frames that evolve alike answer every chain query alike: the walks only
/// look at variants and at data that never changes.
pub proof fn lemma_indices_evolved(a: Seq<StmtFrame>, b: Seq<StmtFrame>)
    requires
        ctx_evolved(a, b),
    ensures
        spec_valof_index(b) == spec_valof_index(a),
        spec_function_index(b) == spec_function_index(a),
        spec_switch_index(b) == spec_switch_index(a),
        spec_require_semicolon(b) == spec_require_semicolon(a),
        spec_in_loop(b) == spec_in_loop(a),
    decreases a.len(),
{
    if a.len() > 0 {
        assert(frame_evolved(a[a.len() - 1], b[a.len() - 1]));
        assert(a.last() == a[a.len() - 1]);
        assert(b.last() == b[b.len() - 1]);
        assert(ctx_evolved(a.drop_last(), b.drop_last())) by {
            assert forall|i: int|
                0 <= i < a.drop_last().len() implies frame_evolved(
                #[trigger] a.drop_last()[i],
                #[trigger] b.drop_last()[i],
            ) by {
                assert(a.drop_last()[i] == a[i]);
                assert(b.drop_last()[i] == b[i]);
                assert(frame_evolved(a[i], b[i]));
            }
        }
        lemma_indices_evolved(a.drop_last(), b.drop_last());
    }
}

/// What pushing one frame does to each chain query.  In particular, a
/// statement directly inside a `Block` frame must be terminator-delimited,
/// while a `NoBlock` frame never demands a terminator of its own: a compound
/// chain's members are not individually terminated, only the chain as a
/// whole is, by the enclosing context's rule.
pub proof fn lemma_push_frame(a: Seq<StmtFrame>, f: StmtFrame)
    ensures
        !(f is ValOf) && !(f is Function) ==> spec_valof_index(a.push(f)) == spec_valof_index(a),
        !(f is Function) ==> spec_function_index(a.push(f)) == spec_function_index(a),
        !(f is SwitchOn) && !(f is Function) ==> spec_switch_index(a.push(f)) == spec_switch_index(
            a,
        ),
        f is ValOf ==> spec_valof_index(a.push(f)) == Some(a.len() as int),
        f is Function ==> spec_function_index(a.push(f)) == Some(a.len() as int),
        f is SwitchOn ==> spec_switch_index(a.push(f)) == Some(a.len() as int),
        f is Block ==> spec_require_semicolon(a.push(f)),
        f is Loop || f is SwitchOn ==> spec_require_semicolon(a.push(f))
            == spec_require_semicolon(a),
        f is NoBlock || f is ValOf || f is Function ==> !spec_require_semicolon(a.push(f)),
{
    assert(a.push(f).last() == f);
    assert(a.push(f).drop_last() =~= a);
}

pub proof fn lemma_untouched_trans(a: Seq<StmtFrame>, b: Seq<StmtFrame>, c: Seq<StmtFrame>)
    requires
        ctx_evolved(a, b),
        untouched_valof_cells(a, b),
        untouched_valof_cells(b, c),
    ensures
        untouched_valof_cells(a, c),
{
    lemma_indices_evolved(a, b);
    assert forall|i: int|
        0 <= i < a.len() && a[i] is ValOf && spec_valof_index(a) != Some(i) implies c[i]
        == #[trigger] a[i] by {
        assert(b[i] == a[i]);
        assert(c[i] == b[i]);
    }
}

pub proof fn lemma_stable_untouched(a: Seq<StmtFrame>, b: Seq<StmtFrame>)
    requires
        valof_cells_stable(a, b),
    ensures
        untouched_valof_cells(a, b),
{
    assert forall|i: int|
        0 <= i < a.len() && a[i] is ValOf && spec_valof_index(a) != Some(i) implies b[i]
        == #[trigger] a[i] by {
        assert(a[i] is ValOf);
    }
}

/// Popping a pushed frame that is transparent to the `valof` walk keeps every
/// older `ValOf` frame but the reachable one untouched.
pub proof fn lemma_untouched_unpush(a: Seq<StmtFrame>, f: StmtFrame, b: Seq<StmtFrame>)
    requires
        !(f is ValOf),
        !(f is Function),
        ctx_evolved(a.push(f), b),
        untouched_valof_cells(a.push(f), b),
    ensures
        untouched_valof_cells(a, b.drop_last()),
{
    lemma_push_frame(a, f);
    assert forall|i: int|
        0 <= i < a.len() && a[i] is ValOf && spec_valof_index(a) != Some(i) implies b.drop_last()[i]
        == #[trigger] a[i] by {
        assert(a.push(f)[i] == a[i]);
        assert(b[i] == a.push(f)[i]);
        assert(b.drop_last()[i] == b[i]);
    }
}

/// Popping a pushed `ValOf` frame leaves every older `ValOf` frame untouched:
/// while it stood, it shadowed them all.
pub proof fn lemma_stable_unpush_valof(a: Seq<StmtFrame>, f: StmtFrame, b: Seq<StmtFrame>)
    requires
        f is ValOf,
        ctx_evolved(a.push(f), b),
        untouched_valof_cells(a.push(f), b),
    ensures
        valof_cells_stable(a, b.drop_last()),
{
    assert(a.push(f).last() == f);
    assert(spec_valof_index(a.push(f)) == Some(a.len() as int));
    assert forall|i: int| 0 <= i < a.len() && a[i] is ValOf implies b.drop_last()[i]
        == #[trigger] a[i] by {
        assert(a.push(f)[i] == a[i]);
        assert(b[i] == a.push(f)[i]);
        assert(b.drop_last()[i] == b[i]);
    }
}

/// The bare expression node a single literal token parses to: its value and
/// its resolved type.
pub open spec fn atom_kind_matches(
    ts: Seq<TypeKind>,
    tok: Token,
    k: ExprKind,
    t: Option<TypeIndex>,
) -> bool {
    match tok.kind {
        TokenKind::IntLit => k == ExprKind::IntLit(tok.int_val) && is_type(ts, t, TypeKind::Int),
        TokenKind::CharLit => k == ExprKind::CharLit(tok.char_val) && is_type(
            ts,
            t,
            TypeKind::Char,
        ),
        TokenKind::True => k == ExprKind::BoolLit(true) && is_type(ts, t, TypeKind::Bool),
        TokenKind::False => k == ExprKind::BoolLit(false) && is_type(ts, t, TypeKind::Bool),
        _ => false,
    }
}

/// The operand a literal token yields after unification against the fixed
/// type `target`: the bare literal when its type already is `target`, else
/// exactly one implicit cast at `cast_loc` wrapping the bare literal.  Under
/// a duplicate-free type table this forces both directions: a mismatch is
/// never silently dropped, and a matching literal is never cast.
pub open spec fn unified_against(
    ts: Seq<TypeKind>,
    tok: Token,
    target: Option<TypeIndex>,
    cast_loc: Location,
    e: Box<Expr>,
) -> bool {
    &&& e.typ == target
    &&& match e.kind {
        ExprKind::ImplicitCast(inner) => {
            &&& inner.typ != target
            &&& inner.loc == tok.loc
            &&& atom_kind_matches(ts, tok, inner.kind, inner.typ)
            &&& e.loc == cast_loc
        },
        _ => atom_kind_matches(ts, tok, e.kind, e.typ) && e.loc == tok.loc,
    }
}

/// The condition a literal token yields after boolean coercion: the bare
/// literal when it is itself boolean, else exactly one implicit cast to the
/// boolean type around it.
pub open spec fn bool_condition_from(ts: Seq<TypeKind>, tok: Token, c: Box<Expr>) -> bool {
    &&& is_type(ts, c.typ, TypeKind::Bool)
    &&& match c.kind {
        ExprKind::ImplicitCast(inner) => {
            &&& inner.typ != c.typ
            &&& inner.loc == tok.loc
            &&& atom_kind_matches(ts, tok, inner.kind, inner.typ)
            &&& c.loc == tok.loc
        },
        _ => atom_kind_matches(ts, tok, c.kind, c.typ) && c.loc == tok.loc,
    }
}

/// A literal keeps matching its token when the type table grows.
pub proof fn lemma_atom_prefix(
    ts1: Seq<TypeKind>,
    ts2: Seq<TypeKind>,
    tok: Token,
    k: ExprKind,
    t: Option<TypeIndex>,
)
    requires
        ts1.is_prefix_of(ts2),
        atom_kind_matches(ts1, tok, k, t),
    ensures
        atom_kind_matches(ts2, tok, k, t),
{
    match tok.kind {
        TokenKind::IntLit => lemma_is_type_prefix(ts1, ts2, t, TypeKind::Int),
        TokenKind::CharLit => lemma_is_type_prefix(ts1, ts2, t, TypeKind::Char),
        TokenKind::True => lemma_is_type_prefix(ts1, ts2, t, TypeKind::Bool),
        TokenKind::False => lemma_is_type_prefix(ts1, ts2, t, TypeKind::Bool),
        _ => (),
    }
}

/// A unified operand keeps its shape when the type table grows.
pub proof fn lemma_unified_prefix(
    ts1: Seq<TypeKind>,
    ts2: Seq<TypeKind>,
    tok: Token,
    target: Option<TypeIndex>,
    cast_loc: Location,
    e: Box<Expr>,
)
    requires
        ts1.is_prefix_of(ts2),
        unified_against(ts1, tok, target, cast_loc, e),
    ensures
        unified_against(ts2, tok, target, cast_loc, e),
{
    match e.kind {
        ExprKind::ImplicitCast(inner) => {
            lemma_atom_prefix(ts1, ts2, tok, inner.kind, inner.typ);
        },
        _ => {
            lemma_atom_prefix(ts1, ts2, tok, e.kind, e.typ);
        },
    }
}

/// A coerced condition keeps its shape when the type table grows.
pub proof fn lemma_bool_condition_prefix(
    ts1: Seq<TypeKind>,
    ts2: Seq<TypeKind>,
    tok: Token,
    c: Box<Expr>,
)
    requires
        ts1.is_prefix_of(ts2),
        bool_condition_from(ts1, tok, c),
    ensures
        bool_condition_from(ts2, tok, c),
{
    lemma_is_type_prefix(ts1, ts2, c.typ, TypeKind::Bool);
    match c.kind {
        ExprKind::ImplicitCast(inner) => {
            lemma_atom_prefix(ts1, ts2, tok, inner.kind, inner.typ);
        },
        _ => {
            lemma_atom_prefix(ts1, ts2, tok, c.kind, c.typ);
        },
    }
}

/// What a `resultis` whose operand is one literal token leaves behind: the
/// literal unified against the already-fixed slot type, or, when the slot was
/// still empty, the bare literal that has just fixed it.
pub open spec fn resultis_atom_result(
    old_ctx: Seq<StmtFrame>,
    ts: Seq<TypeKind>,
    tok: Token,
    kw_loc: Location,
    s: Stmt,
) -> bool {
    match (spec_valof_index(old_ctx), s.kind) {
        (Some(i), StmtKind::ResultIs(e)) => match frame_cell(old_ctx[i]) {
            Some(Some(vt)) => unified_against(ts, tok, vt, kw_loc, e),
            Some(None) => atom_kind_matches(ts, tok, e.kind, e.typ) && e.loc == tok.loc,
            _ => false,
        },
        _ => false,
    }
}

/// The same, for a `return` against the reachable function slot.
pub open spec fn return_atom_result(
    old_ctx: Seq<StmtFrame>,
    ts: Seq<TypeKind>,
    tok: Token,
    kw_loc: Location,
    s: Stmt,
) -> bool {
    match (spec_function_index(old_ctx), s.kind) {
        (Some(i), StmtKind::Return(e)) => match frame_cell(old_ctx[i]) {
            Some(Some(vt)) => unified_against(ts, tok, vt, kw_loc, e),
            Some(None) => atom_kind_matches(ts, tok, e.kind, e.typ) && e.loc == tok.loc,
            _ => false,
        },
        _ => false,
    }
}

/// Which statement node each statement-opening token produces.
pub open spec fn dispatched_kind(k: TokenKind, s: StmtKind) -> bool {
    match k {
        TokenKind::LBrace => s is Block,
        TokenKind::ResultIs => s is ResultIs,
        TokenKind::Return => s is Return,
        TokenKind::If => s is If,
        TokenKind::Unless => s is Unless,
        TokenKind::While => s is While,
        TokenKind::Until => s is Until,
        TokenKind::For => s is For,
        TokenKind::SwitchOn => s is SwitchOn,
        TokenKind::Case => s is Case,
        TokenKind::Default => s is DefaultCase,
        TokenKind::EndCase => s is EndCase,
        _ => s is Expr,
    }
}

/// What a well-typed `for` bound looks like: it carries the loop variable's
/// type, and a cast stands around it exactly when the bound's own type
/// differed.
pub open spec fn for_bound_ok(it: Option<TypeIndex>, b: Box<Expr>) -> bool {
    &&& it is Some ==> b.typ == it
    &&& match b.kind {
        ExprKind::ImplicitCast(inner) => it is Some && inner.typ != it,
        _ => true,
    }
}

/// What a successful `resultis` statement guarantees: it bound to the
/// reachable `ValOf` slot; the first occurrence fixes the slot to the bare
/// expression's type, later ones carry the fixed type, wrapped in a cast
/// exactly when the expression's own type differed.
pub open spec fn resultis_ok(
    old_ctx: Seq<StmtFrame>,
    new_ctx: Seq<StmtFrame>,
    s: Stmt,
    loc: Location,
) -> bool {
    match (spec_valof_index(old_ctx), s.kind) {
        (Some(i), StmtKind::ResultIs(e)) => {
            &&& s.loc == loc
            &&& match frame_cell(old_ctx[i]) {
                Some(None) => frame_cell(new_ctx[i]) == Some(Some(e.typ)) && !(e.kind
                    is ImplicitCast),
                Some(Some(vt)) => {
                    &&& frame_cell(new_ctx[i]) == Some(Some(vt))
                    &&& e.typ == vt
                    &&& match e.kind {
                        ExprKind::ImplicitCast(inner) => inner.typ != vt,
                        _ => true,
                    }
                },
                _ => false,
            }
        },
        _ => false,
    }
}

/// What a successful `return` statement guarantees, against the reachable
/// `Function` slot.  The slot may have been bound while the returned
/// expression itself parsed, so the guarantee speaks of the slot as the
/// statement leaves it.
pub open spec fn return_ok(
    old_ctx: Seq<StmtFrame>,
    new_ctx: Seq<StmtFrame>,
    s: Stmt,
    loc: Location,
) -> bool {
    match (spec_function_index(old_ctx), s.kind) {
        (Some(i), StmtKind::Return(e)) => {
            &&& s.loc == loc
            &&& frame_cell(new_ctx[i]) == Some(Some(e.typ))
            &&& match e.kind {
                ExprKind::ImplicitCast(inner) => inner.typ != e.typ,
                _ => true,
            }
            &&& match frame_cell(old_ctx[i]) {
                Some(Some(t0)) => e.typ == t0,
                _ => true,
            }
        },
        _ => false,
    }
}

/// The three index walks land on frames of the kind they look for.
pub proof fn lemma_walks_land(fs: Seq<StmtFrame>)
    ensures
        spec_valof_index(fs) matches Some(i) ==> 0 <= i < fs.len() && fs[i] is ValOf,
        spec_function_index(fs) matches Some(i) ==> 0 <= i < fs.len() && fs[i] is Function,
        spec_switch_index(fs) matches Some(i) ==> 0 <= i < fs.len() && fs[i] is SwitchOn,
    decreases fs.len(),
{
    if fs.len() > 0 {
        lemma_walks_land(fs.drop_last());
        assert(fs.last() == fs[fs.len() - 1]);
        assert(forall|i: int| 0 <= i < fs.len() - 1 ==> fs.drop_last()[i] == #[trigger] fs[i]);
    }
}

impl Parser {
    /// Parses one statement, dispatching on the token under the cursor, and
    /// folds a following compound chain into one sequence node.  Whatever it
    /// does, the context chain keeps its shape and its slots only ever get
    /// bound, never reset.
    pub fn parse_stmt(&mut self, ctx: &mut StmtContext) -> (r: ParseResult<Stmt>)
        requires
            old(self).wf(),
        ensures
            parser_steps(*old(self), *final(self)),
            ctx_evolved(old(ctx)@, final(ctx)@),
            untouched_valof_cells(old(ctx)@, final(ctx)@),
            r matches Ok(s) ==> final(self).spec_pos() > old(self).spec_pos() && ((dispatched_kind(
                old(self).spec_current().kind,
                s.kind,
            ) && s.loc == old(self).spec_current().loc) || (s.kind is Block && exists|m: int|
                old(self).spec_pos() <= m < final(self).spec_pos() && (#[trigger] old(
                    self,
                ).spec_tokens()[m]).kind == TokenKind::Compound && s.loc == old(
                    self,
                ).spec_tokens()[m].loc)),
            (old(self).spec_current().kind == TokenKind::LBrace && old(self).spec_tokens()[old(
                self,
            ).spec_pos() + 1].kind == TokenKind::RBrace && old(self).spec_tokens()[old(
                self,
            ).spec_pos() + 2].kind != TokenKind::Compound) ==> r is Ok && final(self).spec_pos()
                == old(self).spec_pos() + 2,
            (atom_token(old(self).spec_current().kind) && spec_require_semicolon(old(ctx)@)
                && old(self).spec_tokens()[old(self).spec_pos() + 1].kind != TokenKind::Semicolon)
                ==> r is Err,
            (atom_token(old(self).spec_current().kind) && !spec_require_semicolon(old(ctx)@)
                && old(self).spec_tokens()[old(self).spec_pos() + 1].kind != TokenKind::Compound)
                ==> r is Ok && final(self).spec_pos() == old(self).spec_pos() + 1,
            (atom_token(old(self).spec_current().kind) && spec_require_semicolon(old(ctx)@)
                && old(self).spec_tokens()[old(self).spec_pos() + 1].kind == TokenKind::Semicolon
                && old(self).spec_tokens()[old(self).spec_pos() + 2].kind != TokenKind::Compound)
                ==> r is Ok && final(self).spec_pos() == old(self).spec_pos() + 2,
            ((old(self).spec_current().kind == TokenKind::If && old(self).spec_tokens()[old(
                self,
            ).spec_pos() + 4].kind != TokenKind::Else || old(self).spec_current().kind
                == TokenKind::Unless || old(self).spec_current().kind == TokenKind::While || old(
                self,
            ).spec_current().kind == TokenKind::Until) && atom_token(
                old(self).spec_tokens()[old(self).spec_pos() + 1].kind,
            ) && old(self).spec_tokens()[old(self).spec_pos() + 2].kind == TokenKind::Do
                && atom_token(old(self).spec_tokens()[old(self).spec_pos() + 3].kind)
                && !spec_require_semicolon(old(ctx)@) && old(self).spec_tokens()[old(
                self,
            ).spec_pos() + 4].kind != TokenKind::Compound) ==> r is Ok && final(self).spec_pos()
                == old(self).spec_pos() + 4,
            (old(self).spec_current().kind == TokenKind::SwitchOn && atom_token(
                old(self).spec_tokens()[old(self).spec_pos() + 1].kind,
            ) && old(self).spec_tokens()[old(self).spec_pos() + 2].kind == TokenKind::Into && old(
                self,
            ).spec_tokens()[old(self).spec_pos() + 3].kind == TokenKind::LBrace && old(
                self,
            ).spec_tokens()[old(self).spec_pos() + 4].kind == TokenKind::RBrace && old(
                self,
            ).spec_tokens()[old(self).spec_pos() + 5].kind != TokenKind::Compound) ==> r is Ok
                && final(self).spec_pos() == old(self).spec_pos() + 5,
            (old(self).spec_current().kind == TokenKind::For && old(self).spec_tokens()[old(
                self,
            ).spec_pos() + 1].kind == TokenKind::Ident && old(self).spec_tokens()[old(
                self,
            ).spec_pos() + 2].kind == TokenKind::Eq && atom_token(
                old(self).spec_tokens()[old(self).spec_pos() + 3].kind,
            ) && old(self).spec_tokens()[old(self).spec_pos() + 4].kind == TokenKind::Do
                && atom_token(old(self).spec_tokens()[old(self).spec_pos() + 5].kind)
                && !spec_require_semicolon(old(ctx)@) && old(self).spec_tokens()[old(
                self,
            ).spec_pos() + 6].kind != TokenKind::Compound) ==> r is Ok && final(self).spec_pos()
                == old(self).spec_pos() + 6,
            (old(self).spec_current().kind == TokenKind::ResultIs && spec_valof_index(old(ctx)@)
                is None && atom_token(old(self).spec_tokens()[old(self).spec_pos() + 1].kind))
                ==> (r matches Err(e) && (e.spec_inner() matches ParseError::InvalidStmt(kw, c)
                && kw@ == "resultis"@ && c@ == "valof"@) && e.spec_location() == old(
                self,
            ).spec_current().loc),
            (old(self).spec_current().kind == TokenKind::Return && spec_function_index(old(ctx)@)
                is None && atom_token(old(self).spec_tokens()[old(self).spec_pos() + 1].kind))
                ==> (r matches Err(e) && (e.spec_inner() matches ParseError::InvalidStmt(kw, c)
                && kw@ == "return"@ && c@ == "function"@) && e.spec_location() == old(
                self,
            ).spec_current().loc),
            (old(self).spec_current().kind == TokenKind::Case && spec_switch_index(old(ctx)@)
                is None && atom_token(old(self).spec_tokens()[old(self).spec_pos() + 1].kind)
                && old(self).spec_tokens()[old(self).spec_pos() + 2].kind == TokenKind::Colon)
                ==> (r matches Err(e) && (e.spec_inner() matches ParseError::InvalidStmt(kw, c)
                && kw@ == "case"@ && c@ == "switchon"@) && e.spec_location() == old(
                self,
            ).spec_current().loc),
            (old(self).spec_current().kind == TokenKind::Default && old(self).spec_tokens()[old(
                self,
            ).spec_pos() + 1].kind == TokenKind::Colon && spec_switch_index(old(ctx)@) is None)
                ==> (r matches Err(e) && (e.spec_inner() matches ParseError::InvalidStmt(kw, c)
                && kw@ == "default"@ && c@ == "switchon"@) && e.spec_location() == old(
                self,
            ).spec_current().loc),
            (old(self).spec_current().kind == TokenKind::Default && old(self).spec_tokens()[old(
                self,
            ).spec_pos() + 1].kind == TokenKind::Colon) ==> match spec_switch_index(old(ctx)@) {
                Some(i) => match old(ctx)@[i] {
                    StmtFrame::SwitchOn { default_case: Some(prev), .. } => (r matches Err(e) && (
                    e.spec_inner() matches ParseError::Redefinition(p, what) && p == prev && what@
                        == "default case"@) && e.spec_location() == old(self).spec_current().loc),
                    _ => true,
                },
                None => true,
            },
            (old(self).spec_current().kind == TokenKind::EndCase && (!spec_require_semicolon(
                old(ctx)@,
            ) || old(self).spec_tokens()[old(self).spec_pos() + 1].kind == TokenKind::Semicolon)
                && spec_switch_index(old(ctx)@) is None) ==> (r matches Err(e) && (e.spec_inner()
                matches ParseError::InvalidStmt(kw, c) && kw@ == "endcase"@ && c@ == "switchon"@)
                && e.spec_location() == old(self).spec_current().loc),
        decreases self.spec_tokens().len() - self.spec_pos(), 3int,
    {
        let k = self.current().kind;
        let res = match k {
            TokenKind::LBrace => self.parse_block(ctx),
            TokenKind::ResultIs => self.parse_resultis(ctx),
            TokenKind::Return => self.parse_return(ctx),
            TokenKind::If => self.parse_if(ctx),
            TokenKind::Unless => self.parse_unless(ctx),
            TokenKind::While => self.parse_while(ctx, false),
            TokenKind::Until => self.parse_while(ctx, true),
            TokenKind::For => self.parse_for(ctx),
            TokenKind::SwitchOn => self.parse_switchon(ctx),
            TokenKind::Case => self.parse_case(ctx),
            TokenKind::Default => self.parse_default_case(ctx),
            TokenKind::EndCase => self.parse_endcase(ctx),
            _ => self.parse_expr_stmt(ctx),
        };
        let stmt = match res {
            Ok(s) => s,
            Err(e) => {
                return Err(e);
            },
        };
        let ghost pmid = *self;
        let ghost cmid = ctx@;
        if self.current().kind == TokenKind::Compound {
            let r2 = self.parse_compound(ctx, stmt);
            proof {
                lemma_parser_steps_trans(*old(self), pmid, *self);
                lemma_ctx_evolved_trans(old(ctx)@, cmid, ctx@);
                lemma_untouched_trans(old(ctx)@, cmid, ctx@);
                if r2 is Ok {
                    assert(old(self).spec_tokens()[pmid.spec_pos()].kind == TokenKind::Compound);
                }
            }
            r2
        } else {
            Ok(stmt)
        }
    }

    /// Parses `{ S* }`: statements under a fresh `Block` frame until the
    /// closing brace, wrapped as one ordered sequence node.
    pub fn parse_block(&mut self, ctx: &mut StmtContext) -> (r: ParseResult<Stmt>)
        requires
            old(self).wf(),
            old(self).spec_current().kind == TokenKind::LBrace,
        ensures
            parser_steps(*old(self), *final(self)),
            ctx_evolved(old(ctx)@, final(ctx)@),
            untouched_valof_cells(old(ctx)@, final(ctx)@),
            r matches Ok(s) ==> final(self).spec_pos() > old(self).spec_pos() && s.loc == old(
                self,
            ).spec_current().loc && s.kind is Block,
            old(self).spec_tokens()[old(self).spec_pos() + 1].kind == TokenKind::RBrace ==> (r
                matches Ok(s) && final(self).spec_pos() == old(self).spec_pos() + 2 && final(ctx)@
                == old(ctx)@ && (s.kind matches StmtKind::Block(v) && v@.len() == 0)),
            (atom_token(old(self).spec_tokens()[old(self).spec_pos() + 1].kind) && old(
                self,
            ).spec_tokens()[old(self).spec_pos() + 2].kind != TokenKind::Semicolon) ==> r is Err,
            (atom_token(old(self).spec_tokens()[old(self).spec_pos() + 1].kind) && old(
                self,
            ).spec_tokens()[old(self).spec_pos() + 2].kind == TokenKind::Semicolon && old(
                self,
            ).spec_tokens()[old(self).spec_pos() + 3].kind == TokenKind::RBrace) ==> (r matches Ok(
                s,
            ) && final(self).spec_pos() == old(self).spec_pos() + 4 && (s.kind matches
                StmtKind::Block(v) && v@.len() == 1)),
        decreases self.spec_tokens().len() - self.spec_pos(), 2int,
    {
        let loc = self.current().loc;
        self.advance();
        let mut stmts: Vec<Stmt> = Vec::new();
        ctx.enter(StmtFrame::Block);
        proof {
            lemma_ctx_evolved_refl(old(ctx)@.push(StmtFrame::Block));
        }
        while self.current().kind != TokenKind::RBrace
            invariant
                self.wf(),
                parser_steps(*old(self), *self),
                self.spec_pos() > old(self).spec_pos(),
                ctx@.len() == old(ctx)@.len() + 1,
                ctx_evolved(old(ctx)@.push(StmtFrame::Block), ctx@),
                untouched_valof_cells(old(ctx)@.push(StmtFrame::Block), ctx@),
                old(self).spec_tokens()[old(self).spec_pos() + 1].kind == TokenKind::RBrace ==> (
                self.spec_pos() == old(self).spec_pos() + 1 && ctx@ == old(ctx)@.push(
                    StmtFrame::Block,
                ) && stmts@.len() == 0),
                (atom_token(old(self).spec_tokens()[old(self).spec_pos() + 1].kind) && old(
                    self,
                ).spec_tokens()[old(self).spec_pos() + 2].kind != TokenKind::Semicolon) ==> (
                self.spec_pos() == old(self).spec_pos() + 1 && ctx@ == old(ctx)@.push(
                    StmtFrame::Block,
                )),
                (atom_token(old(self).spec_tokens()[old(self).spec_pos() + 1].kind) && old(
                    self,
                ).spec_tokens()[old(self).spec_pos() + 2].kind == TokenKind::Semicolon && old(
                    self,
                ).spec_tokens()[old(self).spec_pos() + 3].kind == TokenKind::RBrace) ==> ((
                stmts@.len() == 0 && self.spec_pos() == old(self).spec_pos() + 1) || (stmts@.len()
                    == 1 && self.spec_pos() == old(self).spec_pos() + 3)),
            decreases self.spec_tokens().len() - self.spec_pos(),
        {
            let ghost pmid = *self;
            let ghost cmid = ctx@;
            match self.parse_stmt(ctx) {
                Ok(s) => {
                    stmts.push(s);
                    proof {
                        lemma_parser_steps_trans(*old(self), pmid, *self);
                        lemma_ctx_evolved_trans(old(ctx)@.push(StmtFrame::Block), cmid, ctx@);
                        lemma_untouched_trans(old(ctx)@.push(StmtFrame::Block), cmid, ctx@);
                    }
                },
                Err(e) => {
                    proof {
                        lemma_parser_steps_trans(*old(self), pmid, *self);
                        lemma_ctx_evolved_trans(old(ctx)@.push(StmtFrame::Block), cmid, ctx@);
                        lemma_untouched_trans(old(ctx)@.push(StmtFrame::Block), cmid, ctx@);
                        lemma_evolved_unpush(old(ctx)@, StmtFrame::Block, ctx@);
                        lemma_untouched_unpush(old(ctx)@, StmtFrame::Block, ctx@);
                    }
                    ctx.leave();
                    return Err(e);
                },
            }
        }
        self.advance();
        proof {
            lemma_evolved_unpush(old(ctx)@, StmtFrame::Block, ctx@);
            lemma_untouched_unpush(old(ctx)@, StmtFrame::Block, ctx@);
            assert(old(ctx)@.push(StmtFrame::Block).drop_last() =~= old(ctx)@);
        }
        ctx.leave();
        Ok(Stmt::new(loc, StmtKind::Block(stmts)))
    }

    /// Folds `S1 , S2 , ...` into one sequence node.  The chained statements
    /// parse under a `NoBlock` frame, so none of them individually needs a
    /// terminator.
    pub fn parse_compound(&mut self, ctx: &mut StmtContext, left: Stmt) -> (r: ParseResult<Stmt>)
        requires
            old(self).wf(),
            old(self).spec_current().kind == TokenKind::Compound,
        ensures
            parser_steps(*old(self), *final(self)),
            ctx_evolved(old(ctx)@, final(ctx)@),
            untouched_valof_cells(old(ctx)@, final(ctx)@),
            r matches Ok(s) ==> final(self).spec_pos() > old(self).spec_pos() && s.loc == old(
                self,
            ).spec_current().loc && (s.kind matches StmtKind::Block(stmts) && stmts@.len() >= 2
                && stmts@[0] == left),
            (atom_token(old(self).spec_tokens()[old(self).spec_pos() + 1].kind) && old(
                self,
            ).spec_tokens()[old(self).spec_pos() + 2].kind != TokenKind::Compound) ==> r is Ok
                && final(self).spec_pos() == old(self).spec_pos() + 2,
        decreases self.spec_tokens().len() - self.spec_pos(), 2int,
    {
        let loc = self.current().loc;
        let mut stmts: Vec<Stmt> = Vec::new();
        stmts.push(left);
        let ghost mut chained: bool = false;
        ctx.enter(StmtFrame::NoBlock);
        proof {
            lemma_ctx_evolved_refl(old(ctx)@.push(StmtFrame::NoBlock));
        }
        while self.current().kind == TokenKind::Compound
            invariant
                self.wf(),
                parser_steps(*old(self), *self),
                ctx@.len() == old(ctx)@.len() + 1,
                ctx_evolved(old(ctx)@.push(StmtFrame::NoBlock), ctx@),
                untouched_valof_cells(old(ctx)@.push(StmtFrame::NoBlock), ctx@),
                stmts@.len() >= 1,
                stmts@[0] == left,
                !chained ==> self.spec_pos() == old(self).spec_pos() && stmts@.len() == 1,
                chained ==> stmts@.len() >= 2,
                (atom_token(old(self).spec_tokens()[old(self).spec_pos() + 1].kind) && old(
                    self,
                ).spec_tokens()[old(self).spec_pos() + 2].kind != TokenKind::Compound && chained)
                    ==> self.spec_pos() == old(self).spec_pos() + 2,
            decreases self.spec_tokens().len() - self.spec_pos(),
        {
            self.advance();
            proof {
                lemma_push_frame(old(ctx)@, StmtFrame::NoBlock);
                lemma_indices_evolved(old(ctx)@.push(StmtFrame::NoBlock), ctx@);
            }
            let ghost pmid = *self;
            let ghost cmid = ctx@;
            match self.parse_stmt(ctx) {
                Ok(s) => {
                    stmts.push(s);
                    proof {
                        chained = true;
                    }
                    proof {
                        lemma_parser_steps_trans(*old(self), pmid, *self);
                        lemma_ctx_evolved_trans(old(ctx)@.push(StmtFrame::NoBlock), cmid, ctx@);
                        lemma_untouched_trans(old(ctx)@.push(StmtFrame::NoBlock), cmid, ctx@);
                    }
                },
                Err(e) => {
                    proof {
                        lemma_parser_steps_trans(*old(self), pmid, *self);
                        lemma_ctx_evolved_trans(old(ctx)@.push(StmtFrame::NoBlock), cmid, ctx@);
                        lemma_untouched_trans(old(ctx)@.push(StmtFrame::NoBlock), cmid, ctx@);
                        lemma_evolved_unpush(old(ctx)@, StmtFrame::NoBlock, ctx@);
                        lemma_untouched_unpush(old(ctx)@, StmtFrame::NoBlock, ctx@);
                    }
                    ctx.leave();
                    return Err(e);
                },
            }
        }
        proof {
            lemma_evolved_unpush(old(ctx)@, StmtFrame::NoBlock, ctx@);
            lemma_untouched_unpush(old(ctx)@, StmtFrame::NoBlock, ctx@);
        }
        ctx.leave();
        Ok(Stmt::new(loc, StmtKind::Block(stmts)))
    }

    /// Parses `resultis E`: the expression's type is unified against the
    /// reachable `valof` slot, and without a reachable `valof` the statement
    /// is invalid.
    pub fn parse_resultis(&mut self, ctx: &mut StmtContext) -> (r: ParseResult<Stmt>)
        requires
            old(self).wf(),
            old(self).spec_current().kind == TokenKind::ResultIs,
        ensures
            parser_steps(*old(self), *final(self)),
            ctx_evolved(old(ctx)@, final(ctx)@),
            untouched_valof_cells(old(ctx)@, final(ctx)@),
            spec_valof_index(old(ctx)@) is None ==> r is Err,
            r matches Ok(s) ==> final(self).spec_pos() > old(self).spec_pos() && resultis_ok(
                old(ctx)@,
                final(ctx)@,
                s,
                old(self).spec_current().loc,
            ),
            (spec_valof_index(old(ctx)@) is None && atom_token(
                old(self).spec_tokens()[old(self).spec_pos() + 1].kind,
            )) ==> (r matches Err(e) && (e.spec_inner() matches ParseError::InvalidStmt(kw, c)
                && kw@ == "resultis"@ && c@ == "valof"@) && e.spec_location() == old(
                self,
            ).spec_current().loc),
            (spec_valof_index(old(ctx)@) is Some && atom_token(
                old(self).spec_tokens()[old(self).spec_pos() + 1].kind,
            ) && (!spec_require_semicolon(old(ctx)@) || old(self).spec_tokens()[old(
                self,
            ).spec_pos() + 2].kind == TokenKind::Semicolon)) ==> (r matches Ok(s)
                && resultis_atom_result(
                old(ctx)@,
                final(self).spec_types(),
                old(self).spec_tokens()[old(self).spec_pos() + 1],
                old(self).spec_current().loc,
                s,
            ) && final(self).spec_pos() == old(self).spec_pos() + (if spec_require_semicolon(
                old(ctx)@,
            ) {
                3int
            } else {
                2int
            })),
        decreases self.spec_tokens().len() - self.spec_pos(), 2int,
    {
        let loc = self.current().loc;
        self.advance();
        let ghost p1 = *self;
        let expr = match self.parse_expr(ctx) {
            Ok(e) => e,
            Err(e) => {
                proof {
                    lemma_parser_steps_trans(*old(self), p1, *self);
                    lemma_stable_untouched(old(ctx)@, ctx@);
                }
                return Err(e);
            },
        };
        proof {
            lemma_parser_steps_trans(*old(self), p1, *self);
            lemma_indices_evolved(old(ctx)@, ctx@);
            lemma_walks_land(ctx@);
            lemma_walks_land(old(ctx)@);
        }
        let ghost cmid = ctx@;
        let vi = match ctx.last_valof_type() {
            Some(i) => i,
            None => {
                let mut kw = String::new();
                kw.append("resultis");
                let mut construct = String::new();
                construct.append("valof");
                proof {
                    lemma_stable_untouched(old(ctx)@, ctx@);
                }
                return Err(
                    Located::with_location(ParseError::InvalidStmt(kw, construct), loc),
                );
            },
        };
        let cell = ctx.cell(vi);
        proof {
            assert(ctx@[vi as int] == old(ctx)@[vi as int]);
        }
        let expr = match cell {
            Some(vt) => {
                if !opt_type_eq(vt, expr.typ) {
                    Expr::new(loc, vt, ExprKind::ImplicitCast(Box::new(expr)))
                } else {
                    expr
                }
            },
            None => {
                let t = expr.typ;
                ctx.bind_cell(vi, t);
                proof {
                    lemma_ctx_evolved_trans(old(ctx)@, cmid, ctx@);
                }
                expr
            },
        };
        let ghost p2 = *self;
        let ghost c2 = ctx@;
        proof {
            lemma_indices_evolved(old(ctx)@, ctx@);
        }
        match self.semicolon_if_required(ctx) {
            Ok(_) => {},
            Err(e) => {
                proof {
                    lemma_parser_steps_trans(*old(self), p2, *self);
                }
                return Err(e);
            },
        }
        proof {
            lemma_parser_steps_trans(*old(self), p2, *self);
        }
        Ok(Stmt::new(loc, StmtKind::ResultIs(Box::new(expr))))
    }

    /// Parses `return E`: the expression's type is unified against the
    /// reachable function's return slot, and outside any function the
    /// statement is invalid.
    pub fn parse_return(&mut self, ctx: &mut StmtContext) -> (r: ParseResult<Stmt>)
        requires
            old(self).wf(),
            old(self).spec_current().kind == TokenKind::Return,
        ensures
            parser_steps(*old(self), *final(self)),
            ctx_evolved(old(ctx)@, final(ctx)@),
            untouched_valof_cells(old(ctx)@, final(ctx)@),
            spec_function_index(old(ctx)@) is None ==> r is Err,
            r matches Ok(s) ==> final(self).spec_pos() > old(self).spec_pos() && return_ok(
                old(ctx)@,
                final(ctx)@,
                s,
                old(self).spec_current().loc,
            ),
            (spec_function_index(old(ctx)@) is None && atom_token(
                old(self).spec_tokens()[old(self).spec_pos() + 1].kind,
            )) ==> (r matches Err(e) && (e.spec_inner() matches ParseError::InvalidStmt(kw, c)
                && kw@ == "return"@ && c@ == "function"@) && e.spec_location() == old(
                self,
            ).spec_current().loc),
            (spec_function_index(old(ctx)@) is Some && atom_token(
                old(self).spec_tokens()[old(self).spec_pos() + 1].kind,
            ) && (!spec_require_semicolon(old(ctx)@) || old(self).spec_tokens()[old(
                self,
            ).spec_pos() + 2].kind == TokenKind::Semicolon)) ==> (r matches Ok(s)
                && return_atom_result(
                old(ctx)@,
                final(self).spec_types(),
                old(self).spec_tokens()[old(self).spec_pos() + 1],
                old(self).spec_current().loc,
                s,
            ) && final(self).spec_pos() == old(self).spec_pos() + (if spec_require_semicolon(
                old(ctx)@,
            ) {
                3int
            } else {
                2int
            })),
        decreases self.spec_tokens().len() - self.spec_pos(), 2int,
    {
        let loc = self.current().loc;
        self.advance();
        let ghost p1 = *self;
        let expr = match self.parse_expr(ctx) {
            Ok(e) => e,
            Err(e) => {
                proof {
                    lemma_parser_steps_trans(*old(self), p1, *self);
                    lemma_stable_untouched(old(ctx)@, ctx@);
                }
                return Err(e);
            },
        };
        proof {
            lemma_parser_steps_trans(*old(self), p1, *self);
            lemma_indices_evolved(old(ctx)@, ctx@);
            lemma_walks_land(ctx@);
            lemma_walks_land(old(ctx)@);
        }
        let ghost cmid = ctx@;
        let fi = match ctx.function_return_type() {
            Some(i) => i,
            None => {
                let mut kw = String::new();
                kw.append("return");
                let mut construct = String::new();
                construct.append("function");
                proof {
                    lemma_stable_untouched(old(ctx)@, ctx@);
                }
                return Err(
                    Located::with_location(ParseError::InvalidStmt(kw, construct), loc),
                );
            },
        };
        let cell = ctx.cell(fi);
        let expr = match cell {
            Some(rt) => {
                if !opt_type_eq(rt, expr.typ) {
                    Expr::new(loc, rt, ExprKind::ImplicitCast(Box::new(expr)))
                } else {
                    expr
                }
            },
            None => {
                let t = expr.typ;
                ctx.bind_cell(fi, t);
                proof {
                    lemma_ctx_evolved_trans(old(ctx)@, cmid, ctx@);
                    lemma_stable_untouched(old(ctx)@, cmid);
                    lemma_untouched_trans(old(ctx)@, cmid, ctx@);
                }
                expr
            },
        };
        let ghost p2 = *self;
        proof {
            lemma_indices_evolved(old(ctx)@, ctx@);
        }
        match self.semicolon_if_required(ctx) {
            Ok(_) => {},
            Err(e) => {
                proof {
                    lemma_parser_steps_trans(*old(self), p2, *self);
                }
                return Err(e);
            },
        }
        proof {
            lemma_parser_steps_trans(*old(self), p2, *self);
        }
        Ok(Stmt::new(loc, StmtKind::Return(Box::new(expr))))
    }
}

impl Parser {
    /// Demands the statement terminator exactly when the context requires
    /// one.
    pub fn semicolon_if_required(&mut self, ctx: &StmtContext) -> (r: ParseResult<()>)
        requires
            old(self).wf(),
        ensures
            final(self).wf(),
            final(self).spec_tokens() == old(self).spec_tokens(),
            final(self).spec_types() == old(self).spec_types(),
            final(self).spec_warnings() == old(self).spec_warnings(),
            !spec_require_semicolon(ctx@) ==> r is Ok && final(self).spec_pos() == old(
                self,
            ).spec_pos(),
            spec_require_semicolon(ctx@) && old(self).spec_current().kind == TokenKind::Semicolon
                ==> r is Ok && final(self).spec_pos() == old(self).spec_pos() + 1,
            spec_require_semicolon(ctx@) && old(self).spec_current().kind != TokenKind::Semicolon
                ==> (r matches Err(e) && final(self).spec_pos() == old(self).spec_pos()
                && e.spec_inner() == ParseError::UnexpectedToken(old(self).spec_current().kind)
                && e.spec_location() == old(self).spec_current().loc),
    {
        if ctx.require_semicolon() {
            match self.expect_kind(TokenKind::Semicolon) {
                Ok(_) => Ok(()),
                Err(e) => Err(e),
            }
        } else {
            Ok(())
        }
    }

    /// Coerces a condition to boolean, wrapping it in an implicit cast exactly
    /// when its own type is not already the boolean type.
    fn coerce_condition(&mut self, cond: Expr) -> (r: Expr)
        requires
            old(self).wf(),
        ensures
            final(self).wf(),
            final(self).spec_tokens() == old(self).spec_tokens(),
            final(self).spec_pos() == old(self).spec_pos(),
            final(self).spec_warnings() == old(self).spec_warnings(),
            old(self).spec_types().is_prefix_of(final(self).spec_types()),
            is_type(final(self).spec_types(), r.typ, TypeKind::Bool),
            r.loc == cond.loc,
            is_type(final(self).spec_types(), cond.typ, TypeKind::Bool) ==> r == cond,
            !is_type(final(self).spec_types(), cond.typ, TypeKind::Bool) ==> r.kind
                == ExprKind::ImplicitCast(Box::new(cond)) && r.typ != cond.typ,
    {
        let bt = self.get_type(TypeKind::Bool);
        if opt_type_eq(cond.typ, Some(bt)) {
            cond
        } else {
            proof {
                if is_type(self.spec_types(), cond.typ, TypeKind::Bool) {
                    let i = cond.typ->0;
                    assert(self.spec_types()[i as int] == TypeKind::Bool);
                    assert(self.spec_types()[bt as int] == TypeKind::Bool);
                    assert(i == bt);
                }
            }
            cond.implicit_cast(bt)
        }
    }

    /// Parses `if C [do] S [else S']`.  The condition is coerced to boolean;
    /// both branches parse in the same context, without a new frame.
    pub fn parse_if(&mut self, ctx: &mut StmtContext) -> (r: ParseResult<Stmt>)
        requires
            old(self).wf(),
            old(self).spec_current().kind == TokenKind::If,
        ensures
            parser_steps(*old(self), *final(self)),
            ctx_evolved(old(ctx)@, final(ctx)@),
            untouched_valof_cells(old(ctx)@, final(ctx)@),
            r matches Ok(s) ==> final(self).spec_pos() > old(self).spec_pos() && s.loc == old(
                self,
            ).spec_current().loc && match s.kind {
                StmtKind::If(c, _, _) => is_type(final(self).spec_types(), c.typ, TypeKind::Bool)
                    && match c.kind {
                    ExprKind::ImplicitCast(inner) => inner.typ != c.typ,
                    _ => true,
                },
                _ => false,
            },
            atom_token(old(self).spec_tokens()[old(self).spec_pos() + 1].kind) ==> (r matches Ok(
                s,
            ) ==> match s.kind {
                StmtKind::If(c, _, _) => bool_condition_from(
                    final(self).spec_types(),
                    old(self).spec_tokens()[old(self).spec_pos() + 1],
                    c,
                ),
                _ => false,
            }),
            (atom_token(old(self).spec_tokens()[old(self).spec_pos() + 1].kind) && old(
                self,
            ).spec_tokens()[old(self).spec_pos() + 2].kind == TokenKind::Do && atom_token(
                old(self).spec_tokens()[old(self).spec_pos() + 3].kind,
            ) && !spec_require_semicolon(old(ctx)@) && old(self).spec_tokens()[old(self).spec_pos()
                + 4].kind != TokenKind::Compound && old(self).spec_tokens()[old(self).spec_pos()
                + 4].kind != TokenKind::Else) ==> r is Ok && final(self).spec_pos() == old(
                self,
            ).spec_pos() + 4,
        decreases self.spec_tokens().len() - self.spec_pos(), 2int,
    {
        let ghost tok1 = old(self).spec_tokens()[old(self).spec_pos() + 1];
        let loc = self.current().loc;
        self.advance();
        let ghost p1 = *self;
        let cond = match self.parse_expr(ctx) {
            Ok(e) => e,
            Err(e) => {
                proof {
                    lemma_parser_steps_trans(*old(self), p1, *self);
                    lemma_stable_untouched(old(ctx)@, ctx@);
                }
                return Err(e);
            },
        };
        let ghost pe = *self;
        let ghost cond0 = cond;
        let cond = self.coerce_condition(cond);
        proof {
            if atom_token(tok1.kind) {
                lemma_atom_prefix(pe.spec_types(), self.spec_types(), tok1, cond0.kind, cond0.typ);
                assert(bool_condition_from(self.spec_types(), tok1, Box::new(cond)));
            }
        }
        let _ = self.advance_if_kind(TokenKind::Do);
        proof {
            lemma_parser_steps_trans(*old(self), p1, *self);
            lemma_stable_untouched(old(ctx)@, ctx@);
        }
        let ghost p2 = *self;
        let ghost c2 = ctx@;
        let then_branch = match self.parse_stmt(ctx) {
            Ok(s) => s,
            Err(e) => {
                proof {
                    lemma_parser_steps_trans(*old(self), p2, *self);
                    lemma_ctx_evolved_trans(old(ctx)@, c2, ctx@);
                    lemma_untouched_trans(old(ctx)@, c2, ctx@);
                }
                return Err(e);
            },
        };
        proof {
            lemma_parser_steps_trans(*old(self), p2, *self);
            lemma_ctx_evolved_trans(old(ctx)@, c2, ctx@);
            lemma_untouched_trans(old(ctx)@, c2, ctx@);
            crate::parser::lemma_is_type_prefix(
                p2.spec_types(),
                self.spec_types(),
                cond.typ,
                TypeKind::Bool,
            );
            if atom_token(tok1.kind) {
                lemma_bool_condition_prefix(p2.spec_types(), self.spec_types(), tok1, Box::new(cond));
            }
        }
        let ghost p3 = *self;
        let ghost c3 = ctx@;
        let else_branch: Option<Box<Stmt>> = if self.advance_if_kind(TokenKind::Else).is_some() {
            match self.parse_stmt(ctx) {
                Ok(s) => {
                    proof {
                        lemma_parser_steps_trans(*old(self), p3, *self);
                        lemma_ctx_evolved_trans(old(ctx)@, c3, ctx@);
                        lemma_untouched_trans(old(ctx)@, c3, ctx@);
                        crate::parser::lemma_is_type_prefix(
                            p3.spec_types(),
                            self.spec_types(),
                            cond.typ,
                            TypeKind::Bool,
                        );
                        if atom_token(tok1.kind) {
                            lemma_bool_condition_prefix(
                                p3.spec_types(),
                                self.spec_types(),
                                tok1,
                                Box::new(cond),
                            );
                        }
                    }
                    Some(Box::new(s))
                },
                Err(e) => {
                    proof {
                        lemma_parser_steps_trans(*old(self), p3, *self);
                        lemma_ctx_evolved_trans(old(ctx)@, c3, ctx@);
                        lemma_untouched_trans(old(ctx)@, c3, ctx@);
                    }
                    return Err(e);
                },
            }
        } else {
            None
        };
        Ok(Stmt::new(loc, StmtKind::If(Box::new(cond), Box::new(then_branch), else_branch)))
    }

    /// Parses `unless C [do] S`: a one-branch `if` with the same boolean
    /// coercion.
    pub fn parse_unless(&mut self, ctx: &mut StmtContext) -> (r: ParseResult<Stmt>)
        requires
            old(self).wf(),
            old(self).spec_current().kind == TokenKind::Unless,
        ensures
            parser_steps(*old(self), *final(self)),
            ctx_evolved(old(ctx)@, final(ctx)@),
            untouched_valof_cells(old(ctx)@, final(ctx)@),
            r matches Ok(s) ==> final(self).spec_pos() > old(self).spec_pos() && s.loc == old(
                self,
            ).spec_current().loc && match s.kind {
                StmtKind::Unless(c, _) => is_type(final(self).spec_types(), c.typ, TypeKind::Bool)
                    && match c.kind {
                    ExprKind::ImplicitCast(inner) => inner.typ != c.typ,
                    _ => true,
                },
                _ => false,
            },
            atom_token(old(self).spec_tokens()[old(self).spec_pos() + 1].kind) ==> (r matches Ok(
                s,
            ) ==> match s.kind {
                StmtKind::Unless(c, _) => bool_condition_from(
                    final(self).spec_types(),
                    old(self).spec_tokens()[old(self).spec_pos() + 1],
                    c,
                ),
                _ => false,
            }),
            (atom_token(old(self).spec_tokens()[old(self).spec_pos() + 1].kind) && old(
                self,
            ).spec_tokens()[old(self).spec_pos() + 2].kind == TokenKind::Do && atom_token(
                old(self).spec_tokens()[old(self).spec_pos() + 3].kind,
            ) && !spec_require_semicolon(old(ctx)@) && old(self).spec_tokens()[old(self).spec_pos()
                + 4].kind != TokenKind::Compound) ==> r is Ok && final(self).spec_pos() == old(
                self,
            ).spec_pos() + 4,
        decreases self.spec_tokens().len() - self.spec_pos(), 2int,
    {
        let ghost tok1 = old(self).spec_tokens()[old(self).spec_pos() + 1];
        let loc = self.current().loc;
        self.advance();
        let ghost p1 = *self;
        let cond = match self.parse_expr(ctx) {
            Ok(e) => e,
            Err(e) => {
                proof {
                    lemma_parser_steps_trans(*old(self), p1, *self);
                    lemma_stable_untouched(old(ctx)@, ctx@);
                }
                return Err(e);
            },
        };
        let ghost pe = *self;
        let ghost cond0 = cond;
        let cond = self.coerce_condition(cond);
        proof {
            if atom_token(tok1.kind) {
                lemma_atom_prefix(pe.spec_types(), self.spec_types(), tok1, cond0.kind, cond0.typ);
                assert(bool_condition_from(self.spec_types(), tok1, Box::new(cond)));
            }
        }
        let _ = self.advance_if_kind(TokenKind::Do);
        proof {
            lemma_parser_steps_trans(*old(self), p1, *self);
            lemma_stable_untouched(old(ctx)@, ctx@);
        }
        let ghost p2 = *self;
        let ghost c2 = ctx@;
        let branch = match self.parse_stmt(ctx) {
            Ok(s) => s,
            Err(e) => {
                proof {
                    lemma_parser_steps_trans(*old(self), p2, *self);
                    lemma_ctx_evolved_trans(old(ctx)@, c2, ctx@);
                    lemma_untouched_trans(old(ctx)@, c2, ctx@);
                }
                return Err(e);
            },
        };
        proof {
            lemma_parser_steps_trans(*old(self), p2, *self);
            lemma_ctx_evolved_trans(old(ctx)@, c2, ctx@);
            lemma_untouched_trans(old(ctx)@, c2, ctx@);
            crate::parser::lemma_is_type_prefix(
                p2.spec_types(),
                self.spec_types(),
                cond.typ,
                TypeKind::Bool,
            );
            if atom_token(tok1.kind) {
                lemma_bool_condition_prefix(p2.spec_types(), self.spec_types(), tok1, Box::new(cond));
            }
        }
        Ok(Stmt::new(loc, StmtKind::Unless(Box::new(cond), Box::new(branch))))
    }

    /// Parses `while C [do] S`, or `until C [do] S` as its negated form.  The
    /// condition is coerced to boolean and the body parses under a new `Loop`
    /// frame.
    pub fn parse_while(&mut self, ctx: &mut StmtContext, negate: bool) -> (r: ParseResult<Stmt>)
        requires
            old(self).wf(),
            negate ==> old(self).spec_current().kind == TokenKind::Until,
            !negate ==> old(self).spec_current().kind == TokenKind::While,
        ensures
            parser_steps(*old(self), *final(self)),
            ctx_evolved(old(ctx)@, final(ctx)@),
            untouched_valof_cells(old(ctx)@, final(ctx)@),
            r matches Ok(s) ==> final(self).spec_pos() > old(self).spec_pos() && s.loc == old(
                self,
            ).spec_current().loc && match s.kind {
                StmtKind::While(c, _) => !negate && is_type(
                    final(self).spec_types(),
                    c.typ,
                    TypeKind::Bool,
                ) && match c.kind {
                    ExprKind::ImplicitCast(inner) => inner.typ != c.typ,
                    _ => true,
                },
                StmtKind::Until(c, _) => negate && is_type(
                    final(self).spec_types(),
                    c.typ,
                    TypeKind::Bool,
                ) && match c.kind {
                    ExprKind::ImplicitCast(inner) => inner.typ != c.typ,
                    _ => true,
                },
                _ => false,
            },
            atom_token(old(self).spec_tokens()[old(self).spec_pos() + 1].kind) ==> (r matches Ok(
                s,
            ) ==> match s.kind {
                StmtKind::While(c, _) => bool_condition_from(
                    final(self).spec_types(),
                    old(self).spec_tokens()[old(self).spec_pos() + 1],
                    c,
                ),
                StmtKind::Until(c, _) => bool_condition_from(
                    final(self).spec_types(),
                    old(self).spec_tokens()[old(self).spec_pos() + 1],
                    c,
                ),
                _ => false,
            }),
            (atom_token(old(self).spec_tokens()[old(self).spec_pos() + 1].kind) && old(
                self,
            ).spec_tokens()[old(self).spec_pos() + 2].kind == TokenKind::Do && atom_token(
                old(self).spec_tokens()[old(self).spec_pos() + 3].kind,
            ) && !spec_require_semicolon(old(ctx)@) && old(self).spec_tokens()[old(self).spec_pos()
                + 4].kind != TokenKind::Compound) ==> r is Ok && final(self).spec_pos() == old(
                self,
            ).spec_pos() + 4,
        decreases self.spec_tokens().len() - self.spec_pos(), 2int,
    {
        let ghost tok1 = old(self).spec_tokens()[old(self).spec_pos() + 1];
        let loc = self.current().loc;
        self.advance();
        let ghost p1 = *self;
        let cond = match self.parse_expr(ctx) {
            Ok(e) => e,
            Err(e) => {
                proof {
                    lemma_parser_steps_trans(*old(self), p1, *self);
                    lemma_stable_untouched(old(ctx)@, ctx@);
                }
                return Err(e);
            },
        };
        let ghost pe = *self;
        let ghost cond0 = cond;
        let cond = self.coerce_condition(cond);
        proof {
            if atom_token(tok1.kind) {
                lemma_atom_prefix(pe.spec_types(), self.spec_types(), tok1, cond0.kind, cond0.typ);
                assert(bool_condition_from(self.spec_types(), tok1, Box::new(cond)));
            }
        }
        let _ = self.advance_if_kind(TokenKind::Do);
        proof {
            lemma_parser_steps_trans(*old(self), p1, *self);
            lemma_stable_untouched(old(ctx)@, ctx@);
        }
        let ghost p2 = *self;
        let ghost c2 = ctx@;
        ctx.enter(StmtFrame::Loop);
        proof {
            lemma_ctx_evolved_refl(c2.push(StmtFrame::Loop));
            lemma_push_frame(c2, StmtFrame::Loop);
        }
        let body = match self.parse_stmt(ctx) {
            Ok(s) => s,
            Err(e) => {
                proof {
                    lemma_parser_steps_trans(*old(self), p2, *self);
                    lemma_evolved_unpush(c2, StmtFrame::Loop, ctx@);
                    lemma_untouched_unpush(c2, StmtFrame::Loop, ctx@);
                }
                ctx.leave();
                proof {
                    lemma_ctx_evolved_trans(old(ctx)@, c2, ctx@);
                    lemma_untouched_trans(old(ctx)@, c2, ctx@);
                }
                return Err(e);
            },
        };
        proof {
            lemma_parser_steps_trans(*old(self), p2, *self);
            lemma_evolved_unpush(c2, StmtFrame::Loop, ctx@);
            lemma_untouched_unpush(c2, StmtFrame::Loop, ctx@);
        }
        ctx.leave();
        proof {
            lemma_ctx_evolved_trans(old(ctx)@, c2, ctx@);
            lemma_untouched_trans(old(ctx)@, c2, ctx@);
            crate::parser::lemma_is_type_prefix(
                p2.spec_types(),
                self.spec_types(),
                cond.typ,
                TypeKind::Bool,
            );
            if atom_token(tok1.kind) {
                lemma_bool_condition_prefix(p2.spec_types(), self.spec_types(), tok1, Box::new(cond));
            }
        }
        let kind = if negate {
            StmtKind::Until(Box::new(cond), Box::new(body))
        } else {
            StmtKind::While(Box::new(cond), Box::new(body))
        };
        Ok(Stmt::new(loc, kind))
    }
}

impl Parser {
    /// Parses `for I = E1 [to E2] [by E3] [do] S`.  The loop variable takes
    /// `E1`'s type; a present bound whose type differs from `E1`'s is wrapped
    /// in exactly one implicit cast, and `E1` itself is never touched.  The
    /// body parses under a new `Loop` frame.
    pub fn parse_for(&mut self, ctx: &mut StmtContext) -> (r: ParseResult<Stmt>)
        requires
            old(self).wf(),
            old(self).spec_current().kind == TokenKind::For,
        ensures
            parser_steps(*old(self), *final(self)),
            ctx_evolved(old(ctx)@, final(ctx)@),
            untouched_valof_cells(old(ctx)@, final(ctx)@),
            r matches Ok(s) ==> final(self).spec_pos() > old(self).spec_pos() && s.loc == old(
                self,
            ).spec_current().loc && match s.kind {
                StmtKind::For(decl, init, limit, step, _) => {
                    &&& decl.loc == old(self).spec_tokens()[old(self).spec_pos() + 1].loc
                    &&& decl.name == old(self).spec_tokens()[old(self).spec_pos() + 1].name
                    &&& decl.typ == init.typ
                    &&& !(init.kind is ImplicitCast)
                    &&& match limit {
                        Some(l) => for_bound_ok(init.typ, l),
                        None => true,
                    }
                    &&& match step {
                        Some(st) => for_bound_ok(init.typ, st),
                        None => true,
                    }
                },
                _ => false,
            },
            (old(self).spec_tokens()[old(self).spec_pos() + 1].kind == TokenKind::Ident && old(
                self,
            ).spec_tokens()[old(self).spec_pos() + 2].kind == TokenKind::Eq && atom_token(
                old(self).spec_tokens()[old(self).spec_pos() + 3].kind,
            )) ==> (r matches Ok(s) ==> match s.kind {
                StmtKind::For(decl, init, limit, step, _) => {
                    &&& atom_kind_matches(
                        final(self).spec_types(),
                        old(self).spec_tokens()[old(self).spec_pos() + 3],
                        init.kind,
                        init.typ,
                    )
                    &&& init.loc == old(self).spec_tokens()[old(self).spec_pos() + 3].loc
                    &&& (limit is Some <==> old(self).spec_tokens()[old(self).spec_pos()
                        + 4].kind == TokenKind::To)
                    &&& ((old(self).spec_tokens()[old(self).spec_pos() + 4].kind == TokenKind::To
                        && atom_token(old(self).spec_tokens()[old(self).spec_pos() + 5].kind))
                        ==> {
                        &&& match limit {
                            Some(l) => unified_against(
                                final(self).spec_types(),
                                old(self).spec_tokens()[old(self).spec_pos() + 5],
                                init.typ,
                                old(self).spec_tokens()[old(self).spec_pos() + 5].loc,
                                l,
                            ),
                            None => false,
                        }
                        &&& (step is Some <==> old(self).spec_tokens()[old(self).spec_pos()
                            + 6].kind == TokenKind::By)
                        &&& ((old(self).spec_tokens()[old(self).spec_pos() + 6].kind
                            == TokenKind::By && atom_token(
                            old(self).spec_tokens()[old(self).spec_pos() + 7].kind,
                        )) ==> match step {
                            Some(st) => unified_against(
                                final(self).spec_types(),
                                old(self).spec_tokens()[old(self).spec_pos() + 7],
                                init.typ,
                                old(self).spec_tokens()[old(self).spec_pos() + 7].loc,
                                st,
                            ),
                            None => false,
                        })
                    })
                    &&& (old(self).spec_tokens()[old(self).spec_pos() + 4].kind != TokenKind::To
                        ==> {
                        &&& (step is Some <==> old(self).spec_tokens()[old(self).spec_pos()
                            + 4].kind == TokenKind::By)
                        &&& ((old(self).spec_tokens()[old(self).spec_pos() + 4].kind
                            == TokenKind::By && atom_token(
                            old(self).spec_tokens()[old(self).spec_pos() + 5].kind,
                        )) ==> match step {
                            Some(st) => unified_against(
                                final(self).spec_types(),
                                old(self).spec_tokens()[old(self).spec_pos() + 5],
                                init.typ,
                                old(self).spec_tokens()[old(self).spec_pos() + 5].loc,
                                st,
                            ),
                            None => false,
                        })
                    })
                },
                _ => false,
            }),
            (old(self).spec_tokens()[old(self).spec_pos() + 1].kind == TokenKind::Ident && old(
                self,
            ).spec_tokens()[old(self).spec_pos() + 2].kind == TokenKind::Eq && atom_token(
                old(self).spec_tokens()[old(self).spec_pos() + 3].kind,
            ) && old(self).spec_tokens()[old(self).spec_pos() + 4].kind == TokenKind::Do
                && atom_token(old(self).spec_tokens()[old(self).spec_pos() + 5].kind)
                && !spec_require_semicolon(old(ctx)@) && old(self).spec_tokens()[old(
                self,
            ).spec_pos() + 6].kind != TokenKind::Compound) ==> r is Ok && final(self).spec_pos()
                == old(self).spec_pos() + 6,
            (old(self).spec_tokens()[old(self).spec_pos() + 1].kind == TokenKind::Ident && old(
                self,
            ).spec_tokens()[old(self).spec_pos() + 2].kind == TokenKind::Eq && atom_token(
                old(self).spec_tokens()[old(self).spec_pos() + 3].kind,
            ) && old(self).spec_tokens()[old(self).spec_pos() + 4].kind == TokenKind::To
                && atom_token(old(self).spec_tokens()[old(self).spec_pos() + 5].kind) && old(
                self,
            ).spec_tokens()[old(self).spec_pos() + 6].kind == TokenKind::By && atom_token(
                old(self).spec_tokens()[old(self).spec_pos() + 7].kind,
            ) && old(self).spec_tokens()[old(self).spec_pos() + 8].kind == TokenKind::Do
                && atom_token(old(self).spec_tokens()[old(self).spec_pos() + 9].kind)
                && !spec_require_semicolon(old(ctx)@) && old(self).spec_tokens()[old(
                self,
            ).spec_pos() + 10].kind != TokenKind::Compound) ==> r is Ok && final(self).spec_pos()
                == old(self).spec_pos() + 10,
        decreases self.spec_tokens().len() - self.spec_pos(), 2int,
    {
        let ghost lit_prefix = old(self).spec_tokens()[old(self).spec_pos() + 1].kind
            == TokenKind::Ident && old(self).spec_tokens()[old(self).spec_pos() + 2].kind
            == TokenKind::Eq && atom_token(old(self).spec_tokens()[old(self).spec_pos() + 3].kind);
        let loc = self.current().loc;
        self.advance();
        let iter_loc = self.current().loc;
        let ghost p1 = *self;
        let iter_ident = match self.expect_ident() {
            Ok(n) => n,
            Err(e) => {
                proof {
                    lemma_parser_steps_trans(*old(self), p1, *self);
                }
                return Err(e);
            },
        };
        match self.expect_kind(TokenKind::Eq) {
            Ok(_) => {},
            Err(e) => {
                proof {
                    lemma_parser_steps_trans(*old(self), p1, *self);
                }
                return Err(e);
            },
        }
        proof {
            lemma_parser_steps_trans(*old(self), p1, *self);
        }
        let ghost p2 = *self;
        let init = match self.parse_expr(ctx) {
            Ok(e) => e,
            Err(e) => {
                proof {
                    lemma_parser_steps_trans(*old(self), p2, *self);
                    lemma_stable_untouched(old(ctx)@, ctx@);
                }
                return Err(e);
            },
        };
        proof {
            lemma_parser_steps_trans(*old(self), p2, *self);
            lemma_stable_untouched(old(ctx)@, ctx@);
        }
        let ghost p3 = *self;
        let ghost c3 = ctx@;
        let limit: Option<Box<Expr>> = if self.advance_if_kind(TokenKind::To).is_some() {
            match self.parse_expr(ctx) {
                Ok(e0) => {
                    let e1 = match init.typ {
                        Some(t) => {
                            if !opt_type_eq(Some(t), e0.typ) {
                                e0.implicit_cast(t)
                            } else {
                                e0
                            }
                        },
                        None => e0,
                    };
                    proof {
                        lemma_parser_steps_trans(*old(self), p3, *self);
                        lemma_ctx_evolved_trans(old(ctx)@, c3, ctx@);
                        lemma_stable_untouched(c3, ctx@);
                        lemma_untouched_trans(old(ctx)@, c3, ctx@);
                        if lit_prefix && atom_token(
                            old(self).spec_tokens()[old(self).spec_pos() + 5].kind,
                        ) {
                            assert(unified_against(
                                self.spec_types(),
                                old(self).spec_tokens()[old(self).spec_pos() + 5],
                                init.typ,
                                old(self).spec_tokens()[old(self).spec_pos() + 5].loc,
                                Box::new(e1),
                            ));
                        }
                    }
                    Some(Box::new(e1))
                },
                Err(e) => {
                    proof {
                        lemma_parser_steps_trans(*old(self), p3, *self);
                        lemma_ctx_evolved_trans(old(ctx)@, c3, ctx@);
                        lemma_stable_untouched(c3, ctx@);
                        lemma_untouched_trans(old(ctx)@, c3, ctx@);
                    }
                    return Err(e);
                },
            }
        } else {
            None
        };
        let ghost p4 = *self;
        let ghost c4 = ctx@;
        let step: Option<Box<Expr>> = if self.advance_if_kind(TokenKind::By).is_some() {
            match self.parse_expr(ctx) {
                Ok(e0) => {
                    let e1 = match init.typ {
                        Some(t) => {
                            if !opt_type_eq(Some(t), e0.typ) {
                                e0.implicit_cast(t)
                            } else {
                                e0
                            }
                        },
                        None => e0,
                    };
                    proof {
                        lemma_parser_steps_trans(*old(self), p4, *self);
                        lemma_ctx_evolved_trans(old(ctx)@, c4, ctx@);
                        lemma_stable_untouched(c4, ctx@);
                        lemma_untouched_trans(old(ctx)@, c4, ctx@);
                        if lit_prefix {
                            let bp = p4.spec_pos();
                            if atom_token(old(self).spec_tokens()[bp + 1].kind) {
                                assert(unified_against(
                                    self.spec_types(),
                                    old(self).spec_tokens()[bp + 1],
                                    init.typ,
                                    old(self).spec_tokens()[bp + 1].loc,
                                    Box::new(e1),
                                ));
                            }
                        }
                    }
                    Some(Box::new(e1))
                },
                Err(e) => {
                    proof {
                        lemma_parser_steps_trans(*old(self), p4, *self);
                        lemma_ctx_evolved_trans(old(ctx)@, c4, ctx@);
                        lemma_stable_untouched(c4, ctx@);
                        lemma_untouched_trans(old(ctx)@, c4, ctx@);
                    }
                    return Err(e);
                },
            }
        } else {
            None
        };
        let _ = self.advance_if_kind(TokenKind::Do);
        let ghost p5 = *self;
        let ghost c5 = ctx@;
        ctx.enter(StmtFrame::Loop);
        proof {
            lemma_ctx_evolved_refl(c5.push(StmtFrame::Loop));
            lemma_push_frame(c5, StmtFrame::Loop);
        }
        let body = match self.parse_stmt(ctx) {
            Ok(s) => s,
            Err(e) => {
                proof {
                    lemma_parser_steps_trans(*old(self), p5, *self);
                    lemma_evolved_unpush(c5, StmtFrame::Loop, ctx@);
                    lemma_untouched_unpush(c5, StmtFrame::Loop, ctx@);
                }
                ctx.leave();
                proof {
                    lemma_ctx_evolved_trans(old(ctx)@, c5, ctx@);
                    lemma_untouched_trans(old(ctx)@, c5, ctx@);
                }
                return Err(e);
            },
        };
        proof {
            lemma_parser_steps_trans(*old(self), p5, *self);
            lemma_evolved_unpush(c5, StmtFrame::Loop, ctx@);
            lemma_untouched_unpush(c5, StmtFrame::Loop, ctx@);
        }
        ctx.leave();
        proof {
            lemma_ctx_evolved_trans(old(ctx)@, c5, ctx@);
            lemma_untouched_trans(old(ctx)@, c5, ctx@);
        }
        proof {
            if lit_prefix {
                lemma_atom_prefix(
                    p3.spec_types(),
                    self.spec_types(),
                    old(self).spec_tokens()[old(self).spec_pos() + 3],
                    init.kind,
                    init.typ,
                );
                match &limit {
                    Some(l) => {
                        if atom_token(old(self).spec_tokens()[old(self).spec_pos() + 5].kind) {
                            lemma_unified_prefix(
                                p4.spec_types(),
                                self.spec_types(),
                                old(self).spec_tokens()[old(self).spec_pos() + 5],
                                init.typ,
                                old(self).spec_tokens()[old(self).spec_pos() + 5].loc,
                                *l,
                            );
                        }
                    },
                    None => {},
                }
                match &step {
                    Some(st) => {
                        let bp = p4.spec_pos();
                        if atom_token(old(self).spec_tokens()[bp + 1].kind) {
                            lemma_unified_prefix(
                                p5.spec_types(),
                                self.spec_types(),
                                old(self).spec_tokens()[bp + 1],
                                init.typ,
                                old(self).spec_tokens()[bp + 1].loc,
                                *st,
                            );
                        }
                    },
                    None => {},
                }
            }
        }
        let init_typ = init.typ;
        Ok(
            Stmt::new(
                loc,
                StmtKind::For(
                    LocalDecl::new(iter_loc, iter_ident, init_typ),
                    Box::new(init),
                    limit,
                    step,
                    Box::new(body),
                ),
            ),
        )
    }

    /// Parses `switchon E into S`: the body parses under a new `SwitchOn`
    /// frame holding a fresh default marker and the condition's static type.
    pub fn parse_switchon(&mut self, ctx: &mut StmtContext) -> (r: ParseResult<Stmt>)
        requires
            old(self).wf(),
            old(self).spec_current().kind == TokenKind::SwitchOn,
        ensures
            parser_steps(*old(self), *final(self)),
            ctx_evolved(old(ctx)@, final(ctx)@),
            untouched_valof_cells(old(ctx)@, final(ctx)@),
            r matches Ok(s) ==> final(self).spec_pos() > old(self).spec_pos() && s.loc == old(
                self,
            ).spec_current().loc && match s.kind {
                StmtKind::SwitchOn(c, _) => !(c.kind is ImplicitCast),
                _ => false,
            },
            atom_token(old(self).spec_tokens()[old(self).spec_pos() + 1].kind) ==> (r matches Ok(
                s,
            ) ==> match s.kind {
                StmtKind::SwitchOn(c, _) => atom_kind_matches(
                    final(self).spec_types(),
                    old(self).spec_tokens()[old(self).spec_pos() + 1],
                    c.kind,
                    c.typ,
                ) && c.loc == old(self).spec_tokens()[old(self).spec_pos() + 1].loc,
                _ => false,
            }),
            (atom_token(old(self).spec_tokens()[old(self).spec_pos() + 1].kind) && old(
                self,
            ).spec_tokens()[old(self).spec_pos() + 2].kind == TokenKind::Into && old(
                self,
            ).spec_tokens()[old(self).spec_pos() + 3].kind == TokenKind::LBrace && old(
                self,
            ).spec_tokens()[old(self).spec_pos() + 4].kind == TokenKind::RBrace && old(
                self,
            ).spec_tokens()[old(self).spec_pos() + 5].kind != TokenKind::Compound) ==> r is Ok
                && final(self).spec_pos() == old(self).spec_pos() + 5,
        decreases self.spec_tokens().len() - self.spec_pos(), 2int,
    {
        let ghost tok1 = old(self).spec_tokens()[old(self).spec_pos() + 1];
        let loc = self.current().loc;
        self.advance();
        let ghost p1 = *self;
        let cond = match self.parse_expr(ctx) {
            Ok(e) => e,
            Err(e) => {
                proof {
                    lemma_parser_steps_trans(*old(self), p1, *self);
                    lemma_stable_untouched(old(ctx)@, ctx@);
                }
                return Err(e);
            },
        };
        match self.expect_kind(TokenKind::Into) {
            Ok(_) => {},
            Err(e) => {
                proof {
                    lemma_parser_steps_trans(*old(self), p1, *self);
                    lemma_stable_untouched(old(ctx)@, ctx@);
                }
                return Err(e);
            },
        }
        proof {
            lemma_parser_steps_trans(*old(self), p1, *self);
            lemma_stable_untouched(old(ctx)@, ctx@);
        }
        let ghost p2 = *self;
        let ghost c2 = ctx@;
        let cond_typ = cond.typ;
        let frame = StmtFrame::SwitchOn { default_case: None, condition_type: cond_typ };
        ctx.enter(frame);
        proof {
            lemma_ctx_evolved_refl(c2.push(frame));
        }
        let body = match self.parse_stmt(ctx) {
            Ok(s) => s,
            Err(e) => {
                proof {
                    lemma_parser_steps_trans(*old(self), p2, *self);
                    lemma_evolved_unpush(c2, frame, ctx@);
                    lemma_untouched_unpush(c2, frame, ctx@);
                }
                ctx.leave();
                proof {
                    lemma_ctx_evolved_trans(old(ctx)@, c2, ctx@);
                    lemma_untouched_trans(old(ctx)@, c2, ctx@);
                }
                return Err(e);
            },
        };
        proof {
            lemma_parser_steps_trans(*old(self), p2, *self);
            lemma_evolved_unpush(c2, frame, ctx@);
            lemma_untouched_unpush(c2, frame, ctx@);
        }
        ctx.leave();
        proof {
            lemma_ctx_evolved_trans(old(ctx)@, c2, ctx@);
            lemma_untouched_trans(old(ctx)@, c2, ctx@);
            if atom_token(tok1.kind) {
                lemma_atom_prefix(p2.spec_types(), self.spec_types(), tok1, cond.kind, cond.typ);
            }
        }
        Ok(Stmt::new(loc, StmtKind::SwitchOn(Box::new(cond), Box::new(body))))
    }

    /// Parses `case E:`.  Valid only with a reachable `switchon`; when the
    /// switch condition's type is known and differs from the label's, the
    /// label is wrapped in an implicit cast.
    pub fn parse_case(&mut self, ctx: &mut StmtContext) -> (r: ParseResult<Stmt>)
        requires
            old(self).wf(),
            old(self).spec_current().kind == TokenKind::Case,
        ensures
            parser_steps(*old(self), *final(self)),
            ctx_evolved(old(ctx)@, final(ctx)@),
            untouched_valof_cells(old(ctx)@, final(ctx)@),
            spec_switch_index(old(ctx)@) is None ==> r is Err,
            r matches Ok(s) ==> final(self).spec_pos() > old(self).spec_pos() && s.loc == old(
                self,
            ).spec_current().loc && (spec_switch_index(old(ctx)@) matches Some(i) && match s.kind {
                StmtKind::Case(e) => match old(ctx)@[i] {
                    StmtFrame::SwitchOn { condition_type: Some(ct), .. } => e.typ == Some(ct)
                        && match e.kind {
                        ExprKind::ImplicitCast(inner) => inner.typ != Some(ct),
                        _ => true,
                    },
                    StmtFrame::SwitchOn { condition_type: None, .. } => !(e.kind is ImplicitCast),
                    _ => false,
                },
                _ => false,
            }),
            (spec_switch_index(old(ctx)@) is None && atom_token(
                old(self).spec_tokens()[old(self).spec_pos() + 1].kind,
            ) && old(self).spec_tokens()[old(self).spec_pos() + 2].kind == TokenKind::Colon) ==> (
            r matches Err(e) && (e.spec_inner() matches ParseError::InvalidStmt(kw, c) && kw@
                == "case"@ && c@ == "switchon"@) && e.spec_location() == old(
                self,
            ).spec_current().loc),
            (spec_switch_index(old(ctx)@) is Some && atom_token(
                old(self).spec_tokens()[old(self).spec_pos() + 1].kind,
            ) && old(self).spec_tokens()[old(self).spec_pos() + 2].kind == TokenKind::Colon) ==> (
            r matches Ok(s) && final(self).spec_pos() == old(self).spec_pos() + 3 && (
            spec_switch_index(old(ctx)@) matches Some(i) && match s.kind {
                StmtKind::Case(e) => match old(ctx)@[i] {
                    StmtFrame::SwitchOn { condition_type: Some(ct), .. } => unified_against(
                        final(self).spec_types(),
                        old(self).spec_tokens()[old(self).spec_pos() + 1],
                        Some(ct),
                        old(self).spec_tokens()[old(self).spec_pos() + 1].loc,
                        e,
                    ),
                    StmtFrame::SwitchOn { condition_type: None, .. } => atom_kind_matches(
                        final(self).spec_types(),
                        old(self).spec_tokens()[old(self).spec_pos() + 1],
                        e.kind,
                        e.typ,
                    ) && e.loc == old(self).spec_tokens()[old(self).spec_pos() + 1].loc,
                    _ => false,
                },
                _ => false,
            })),
        decreases self.spec_tokens().len() - self.spec_pos(), 2int,
    {
        let loc = self.current().loc;
        self.advance();
        let ghost p1 = *self;
        let expr = match self.parse_expr(ctx) {
            Ok(e) => e,
            Err(e) => {
                proof {
                    lemma_parser_steps_trans(*old(self), p1, *self);
                    lemma_stable_untouched(old(ctx)@, ctx@);
                }
                return Err(e);
            },
        };
        match self.expect_kind(TokenKind::Colon) {
            Ok(_) => {},
            Err(e) => {
                proof {
                    lemma_parser_steps_trans(*old(self), p1, *self);
                    lemma_stable_untouched(old(ctx)@, ctx@);
                }
                return Err(e);
            },
        }
        proof {
            lemma_parser_steps_trans(*old(self), p1, *self);
            lemma_stable_untouched(old(ctx)@, ctx@);
            lemma_indices_evolved(old(ctx)@, ctx@);
            lemma_walks_land(ctx@);
            lemma_walks_land(old(ctx)@);
        }
        match ctx.in_switchon() {
            Some(i) => {
                proof {
                    assert(frame_evolved(old(ctx)@[i as int], ctx@[i as int]));
                }
                let ct = ctx.switch_condition_type(i);
                let expr = match ct {
                    Some(c) => {
                        if !opt_type_eq(Some(c), expr.typ) {
                            expr.implicit_cast(c)
                        } else {
                            expr
                        }
                    },
                    None => expr,
                };
                Ok(Stmt::new(loc, StmtKind::Case(Box::new(expr))))
            },
            None => {
                let mut kw = String::new();
                kw.append("case");
                let mut construct = String::new();
                construct.append("switchon");
                Err(Located::with_location(ParseError::InvalidStmt(kw, construct), loc))
            },
        }
    }

    /// Parses `default:`.  Valid only with a reachable `switchon`, and only
    /// once per `switchon`: a second one fails with a redefinition diagnostic
    /// naming the first.
    pub fn parse_default_case(&mut self, ctx: &mut StmtContext) -> (r: ParseResult<Stmt>)
        requires
            old(self).wf(),
            old(self).spec_current().kind == TokenKind::Default,
        ensures
            parser_steps(*old(self), *final(self)),
            ctx_evolved(old(ctx)@, final(ctx)@),
            untouched_valof_cells(old(ctx)@, final(ctx)@),
            r matches Ok(s) ==> final(self).spec_pos() > old(self).spec_pos() && s.kind
                is DefaultCase && s.loc == old(self).spec_current().loc,
            old(self).spec_tokens()[old(self).spec_pos() + 1].kind != TokenKind::Colon ==> (r
                matches Err(e) && e.spec_inner() == ParseError::UnexpectedToken(
                old(self).spec_tokens()[old(self).spec_pos() + 1].kind,
            ) && final(ctx)@ == old(ctx)@),
            old(self).spec_tokens()[old(self).spec_pos() + 1].kind == TokenKind::Colon
                ==> match spec_switch_index(old(ctx)@) {
                None => (r matches Err(e) && (e.spec_inner() matches ParseError::InvalidStmt(
                    kw,
                    c,
                ) && kw@ == "default"@ && c@ == "switchon"@) && e.spec_location() == old(
                    self,
                ).spec_current().loc && final(ctx)@ == old(ctx)@),
                Some(i) => match old(ctx)@[i] {
                    StmtFrame::SwitchOn { default_case: Some(prev), .. } => (r matches Err(e) && (
                    e.spec_inner() matches ParseError::Redefinition(p, what) && p == prev && what@
                        == "default case"@) && e.spec_location() == old(self).spec_current().loc
                        && final(ctx)@ == old(ctx)@),
                    StmtFrame::SwitchOn { default_case: None, condition_type: ct } => (r matches
                        Ok(s) && s.kind is DefaultCase && s.loc == old(self).spec_current().loc
                        && final(self).spec_pos() == old(self).spec_pos() + 2 && final(ctx)@ == old(
                        ctx,
                    )@.update(
                        i,
                        StmtFrame::SwitchOn {
                            default_case: Some(old(self).spec_current().loc),
                            condition_type: ct,
                        },
                    )),
                    _ => true,
                },
            },
        decreases self.spec_tokens().len() - self.spec_pos(), 2int,
    {
        let loc = self.current().loc;
        self.advance();
        match self.expect_kind(TokenKind::Colon) {
            Ok(_) => {},
            Err(e) => {
                return Err(e);
            },
        }
        proof {
            lemma_walks_land(old(ctx)@);
        }
        match ctx.in_switchon() {
            Some(i) => {
                match ctx.switch_default(i) {
                    Some(prev) => {
                        let mut what = String::new();
                        what.append("default case");
                        Err(Located::with_location(ParseError::Redefinition(prev, what), loc))
                    },
                    None => {
                        ctx.record_switch_default(i, loc);
                        proof {
                            assert(final(ctx)@ =~= old(ctx)@.update(
                                i as int,
                                ctx@[i as int],
                            ));
                        }
                        Ok(Stmt::new(loc, StmtKind::DefaultCase))
                    },
                }
            },
            None => {
                let mut kw = String::new();
                kw.append("default");
                let mut construct = String::new();
                construct.append("switchon");
                Err(Located::with_location(ParseError::InvalidStmt(kw, construct), loc))
            },
        }
    }

    /// Parses `endcase`, consuming a terminator when the context requires
    /// one.  Valid only with a reachable `switchon`.
    pub fn parse_endcase(&mut self, ctx: &StmtContext) -> (r: ParseResult<Stmt>)
        requires
            old(self).wf(),
            old(self).spec_current().kind == TokenKind::EndCase,
        ensures
            parser_steps(*old(self), *final(self)),
            final(self).spec_types() == old(self).spec_types(),
            final(self).spec_warnings() == old(self).spec_warnings(),
            r matches Ok(s) ==> final(self).spec_pos() > old(self).spec_pos() && s.kind is EndCase
                && s.loc == old(self).spec_current().loc,
            (spec_require_semicolon(ctx@) && old(self).spec_tokens()[old(self).spec_pos() + 1].kind
                != TokenKind::Semicolon) ==> (r matches Err(e) && e.spec_inner()
                == ParseError::UnexpectedToken(
                old(self).spec_tokens()[old(self).spec_pos() + 1].kind,
            )),
            ((!spec_require_semicolon(ctx@) || old(self).spec_tokens()[old(self).spec_pos()
                + 1].kind == TokenKind::Semicolon) && spec_switch_index(ctx@) is None) ==> (r
                matches Err(e) && (e.spec_inner() matches ParseError::InvalidStmt(kw, c) && kw@
                == "endcase"@ && c@ == "switchon"@) && e.spec_location() == old(
                self,
            ).spec_current().loc),
            ((!spec_require_semicolon(ctx@) || old(self).spec_tokens()[old(self).spec_pos()
                + 1].kind == TokenKind::Semicolon) && spec_switch_index(ctx@) is Some) ==> (r
                matches Ok(s) && s.kind is EndCase && s.loc == old(self).spec_current().loc
                && final(self).spec_pos() == old(self).spec_pos() + (if spec_require_semicolon(
                ctx@,
            ) {
                2int
            } else {
                1int
            })),
        decreases self.spec_tokens().len() - self.spec_pos(), 2int,
    {
        let loc = self.current().loc;
        self.advance();
        let ghost p1 = *self;
        match self.semicolon_if_required(ctx) {
            Ok(_) => {},
            Err(e) => {
                proof {
                    lemma_parser_steps_trans(*old(self), p1, *self);
                }
                return Err(e);
            },
        }
        proof {
            lemma_parser_steps_trans(*old(self), p1, *self);
        }
        match ctx.in_switchon() {
            Some(_) => Ok(Stmt::new(loc, StmtKind::EndCase)),
            None => {
                let mut kw = String::new();
                kw.append("endcase");
                let mut construct = String::new();
                construct.append("switchon");
                Err(Located::with_location(ParseError::InvalidStmt(kw, construct), loc))
            },
        }
    }

    /// Parses an expression as a statement.  An expression without an
    /// observable side effect draws exactly one warning, and the statement is
    /// still accepted.
    pub fn parse_expr_stmt(&mut self, ctx: &mut StmtContext) -> (r: ParseResult<Stmt>)
        requires
            old(self).wf(),
        ensures
            parser_steps(*old(self), *final(self)),
            ctx_evolved(old(ctx)@, final(ctx)@),
            untouched_valof_cells(old(ctx)@, final(ctx)@),
            (atom_token(old(self).spec_current().kind) && (!spec_require_semicolon(old(ctx)@)
                || old(self).spec_tokens()[old(self).spec_pos() + 1].kind == TokenKind::Semicolon))
                ==> r is Ok,
            (atom_token(old(self).spec_current().kind) && !spec_require_semicolon(old(ctx)@))
                ==> r is Ok && final(self).spec_pos() == old(self).spec_pos() + 1,
            (atom_token(old(self).spec_current().kind) && spec_require_semicolon(old(ctx)@)
                && old(self).spec_tokens()[old(self).spec_pos() + 1].kind == TokenKind::Semicolon)
                ==> r is Ok && final(self).spec_pos() == old(self).spec_pos() + 2,
            (atom_token(old(self).spec_current().kind) && spec_require_semicolon(old(ctx)@)
                && old(self).spec_tokens()[old(self).spec_pos() + 1].kind != TokenKind::Semicolon)
                ==> (r matches Err(e) && e.spec_inner() == ParseError::UnexpectedToken(
                old(self).spec_tokens()[old(self).spec_pos() + 1].kind,
            )),
            (old(self).spec_current().kind == TokenKind::Ident && old(self).spec_tokens()[old(
                self,
            ).spec_pos() + 1].kind == TokenKind::LParen && old(self).spec_tokens()[old(
                self,
            ).spec_pos() + 2].kind == TokenKind::RParen && (!spec_require_semicolon(old(ctx)@)
                || old(self).spec_tokens()[old(self).spec_pos() + 3].kind == TokenKind::Semicolon))
                ==> (r matches Ok(s) && final(self).spec_warnings() == old(self).spec_warnings()
                && (s.kind matches StmtKind::Expr(e) && e.kind == ExprKind::Call(
                old(self).spec_current().name,
            ))),
            r matches Ok(s) ==> final(self).spec_pos() > old(self).spec_pos() && s.loc == old(
                self,
            ).spec_current().loc && match s.kind {
                StmtKind::Expr(e) => !e.spec_has_sideeffect() ==> {
                    &&& final(self).spec_warnings().len() == old(self).spec_warnings().len() + 1
                    &&& final(self).spec_warnings().last().spec_inner() is ExprWithoutSideEffect
                    &&& final(self).spec_warnings().last().spec_location() == s.loc
                    &&& final(self).spec_warnings().drop_last() == old(self).spec_warnings()
                },
                _ => false,
            },
        decreases self.spec_tokens().len() - self.spec_pos(), 2int,
    {
        let loc = self.current().loc;
        let ghost p0 = *self;
        let expr = match self.parse_expr(ctx) {
            Ok(e) => e,
            Err(e) => {
                proof {
                    lemma_stable_untouched(old(ctx)@, ctx@);
                }
                return Err(e);
            },
        };
        proof {
            lemma_stable_untouched(old(ctx)@, ctx@);
        }
        if !expr.has_sideeffect() {
            self.push_warning(Located::with_location(ParseError::ExprWithoutSideEffect, loc));
            proof {
                assert(self.spec_warnings().drop_last() =~= p0.spec_warnings());
                assert(p0.spec_warnings().is_prefix_of(self.spec_warnings()));
                lemma_parser_steps_trans(*old(self), p0, *self);
            }
        }
        let ghost p2 = *self;
        match self.semicolon_if_required(ctx) {
            Ok(_) => {},
            Err(e) => {
                proof {
                    lemma_parser_steps_trans(*old(self), p2, *self);
                }
                return Err(e);
            },
        }
        proof {
            lemma_parser_steps_trans(*old(self), p2, *self);
        }
        Ok(Stmt::new(loc, StmtKind::Expr(Box::new(expr))))
    }
}

} // verus!
