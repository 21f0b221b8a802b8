use vstd::prelude::*;

use crate::geometry::Size;
use crate::instructions::{ops_of, Instruction, Op, Value, ValueView};
use crate::script;
use crate::script::{Dest, Source, Variable};
use crate::text::{chars_of, copy_range, string_of};
use crate::width::{str_width_of, text_width};

verus! {

/// Why a script cannot be compiled.
#[derive(Debug)]
pub enum CompileError {
    /// A file that `Load` names could not be read.
    Import(String),
    /// A name was used before anything was bound to it.
    UnresolvedVariable(String),
}

/// What a compile error holds.
pub enum Fault {
    Import(Seq<char>),
    UnresolvedVariable(Seq<char>),
}

impl View for CompileError {
    type V = Fault;

    open spec fn view(&self) -> Fault {
        match self {
            CompileError::Import(p) => Fault::Import(p@),
            CompileError::UnresolvedVariable(k) => Fault::UnresolvedVariable(k@),
        }
    }
}

/// The bindings of the compiler, in the order they were made.
pub type Bindings = Seq<(Seq<char>, Seq<char>)>;

/// The value bound last to `key`.
pub open spec fn lookup(ctx: Bindings, key: Seq<char>) -> Option<Seq<char>>
    decreases ctx.len(),
{
    if ctx.len() == 0 {
        None
    } else if ctx.last().0 == key {
        Some(ctx.last().1)
    } else {
        lookup(ctx.drop_last(), key)
    }
}

/// The string that a source argument stands for.
pub open spec fn resolve(src: Source, ctx: Bindings) -> Result<Seq<char>, Fault> {
    match src {
        Source::Str(s) => Ok(s@),
        Source::Ident(k) => match lookup(ctx, k@) {
            Some(v) => Ok(v),
            None => Err(Fault::UnresolvedVariable(k@)),
        },
    }
}

/// The time per character, in microseconds, at `n` characters a second; a
/// rate of zero stands still.
pub open spec fn speed_micros(n: u64) -> u64 {
    if n == 0 {
        u64::MAX
    } else {
        (1_000_000u64 / n) as u64
    }
}

/// `a * b`, or the largest `u64` where the product does not fit.
pub open spec fn sat_mul(a: u64, b: u64) -> u64 {
    if a * b <= u64::MAX {
        (a * b) as u64
    } else {
        u64::MAX
    }
}

/// `s` without its final newline, where `trim` asks for that.
pub open spec fn trimmed(s: Seq<char>, trim: bool) -> Seq<char> {
    if trim && s.len() > 0 && s.last() == '\n' {
        s.drop_last()
    } else {
        s
    }
}

pub open spec fn value_of(v: Variable) -> ValueView {
    match v {
        Variable::Bool(b) => ValueView::Bool(b),
        Variable::Str(s) => ValueView::Str(s@),
        Variable::Int(i) => ValueView::Int(i),
    }
}

/// The contents of the files that `Load` directives asked for, in order.
pub open spec fn loaded_view(loaded: Seq<Option<String>>) -> Seq<Option<Seq<char>>> {
    loaded.map_values(
        |o: Option<String>|
            match o {
                Some(s) => Some(s@),
                None => None,
            },
    )
}

/// One directive lowered: the instructions it becomes, the bindings after
/// it, and the index of the next loaded file.
pub open spec fn lower_one(ins: script::Instruction, ctx: Bindings, loaded: Seq<Option<Seq<char>>>, li: nat) -> Result<
    (Seq<Op>, Bindings, nat),
    Fault,
> {
    match ins {
        script::Instruction::Load(path, key) => if li < loaded.len() && loaded[li as int] is Some {
            Ok((Seq::empty(), ctx.push((key@, loaded[li as int]->0)), li + 1))
        } else {
            Err(Fault::Import(path@))
        },
        script::Instruction::Find { needle, count } => Ok(
            (seq![Op::FindInCurrentLine { needle: needle@, end_of_word: false, count }], ctx, li),
        ),
        script::Instruction::FindEnd { needle, count } => Ok(
            (seq![Op::FindInCurrentLine { needle: needle@, end_of_word: true, count }], ctx, li),
        ),
        script::Instruction::Goto(Dest::Relative { row, col }) => Ok((seq![Op::Jump { col, row }], ctx, li)),
        script::Instruction::Goto(Dest::Marker(name)) => Ok((seq![Op::JumpToMarker(name@)], ctx, li)),
        script::Instruction::Select { width, height } => Ok(
            (seq![Op::Select(Size { width, height })], ctx, li),
        ),
        script::Instruction::Delete => Ok((seq![Op::Delete], ctx, li)),
        script::Instruction::Type { source, trim_trailing_newline, prefix_newline } => match resolve(
            source,
            ctx,
        ) {
            Err(f) => Err(f),
            Ok(c) => Ok(
                (
                    (if prefix_newline {
                        seq![Op::Insert(seq!['\n'])]
                    } else {
                        Seq::empty()
                    }) + seq![Op::LoadTypeBuffer(trimmed(c, trim_trailing_newline))],
                    ctx,
                    li,
                ),
            ),
        },
        script::Instruction::Command(source) => match resolve(source, ctx) {
            Err(f) => Err(f),
            Ok(c) => Ok(
                (seq![Op::LoadCommandBuffer(c), Op::ClearCommandWait, Op::ClearCommandBuffer], ctx, li),
            ),
        },
        script::Instruction::Insert(source) => match resolve(source, ctx) {
            Err(f) => Err(f),
            Ok(c) => Ok((seq![Op::Insert(c)], ctx, li)),
        },
        script::Instruction::Replace { src, replacement } => match resolve(replacement, ctx) {
            Err(f) => Err(f),
            Ok(c) => Ok(
                (
                    seq![
                        Op::FindInCurrentLine { needle: src@, end_of_word: false, count: 1 },
                        Op::Select(Size { width: str_width_of(src@), height: 1 }),
                        Op::Delete,
                        Op::LoadTypeBuffer(c),
                    ],
                    ctx,
                    li,
                ),
            ),
        },
        script::Instruction::Wait(secs) => Ok((seq![Op::Wait(sat_mul(secs, 1_000_000))], ctx, li)),
        script::Instruction::Speed(n) => Ok((seq![Op::Speed(speed_micros(n))], ctx, li)),
        script::Instruction::LinePause(ms) => Ok((seq![Op::LinePause(sat_mul(ms, 1000))], ctx, li)),
        script::Instruction::SetTitle(t) => Ok((seq![Op::SetTitle(t@)], ctx, li)),
        script::Instruction::SetExtension(e) => Ok((seq![Op::SetExtension(e@)], ctx, li)),
        script::Instruction::ShowLineNumbers(b) => Ok((seq![Op::ShowLineNumbers(b)], ctx, li)),
        script::Instruction::Jitter(ms) => Ok((seq![Op::SetJitter(ms)], ctx, li)),
        script::Instruction::SetTheme(t) => Ok((seq![Op::SetTheme(t@)], ctx, li)),
        script::Instruction::LoadAudio(p) => Ok((seq![Op::LoadAudio(p@)], ctx, li)),
        script::Instruction::Clear => Ok((seq![Op::Clear], ctx, li)),
        script::Instruction::Popup(source) => match resolve(source, ctx) {
            Err(f) => Err(f),
            Ok(c) => Ok((seq![Op::Popup(c)], ctx, li)),
        },
        script::Instruction::ClosePopup => Ok((seq![Op::ClosePopup], ctx, li)),
        script::Instruction::WriteBuffer(p) => Ok((seq![Op::WriteBuffer(p@)], ctx, li)),
        script::Instruction::CommandClearTimeout(ms) => Ok(
            (seq![Op::CommandClearTimeout(sat_mul(ms, 1000))], ctx, li),
        ),
        script::Instruction::Assign(name, var) => Ok(
            (
                seq![Op::SetVariable(name@, value_of(var))],
                match var {
                    Variable::Str(s) => ctx.push((name@, s@)),
                    _ => ctx,
                },
                li,
            ),
        ),
    }
}

/// The directives from index `i` on, lowered in order; the first error stops
/// the whole.
pub open spec fn lower(prog: Seq<script::Instruction>, i: int, ctx: Bindings, loaded: Seq<Option<Seq<char>>>, li: nat) -> Result<
    Seq<Op>,
    Fault,
>
    decreases prog.len() - i,
{
    if i < 0 || i >= prog.len() {
        Ok(Seq::empty())
    } else {
        match lower_one(prog[i], ctx, loaded, li) {
            Err(f) => Err(f),
            Ok((ops, ctx2, li2)) => match lower(prog, i + 1, ctx2, loaded, li2) {
                Err(f) => Err(f),
                Ok(rest) => Ok(ops + rest),
            },
        }
    }
}


/// The bindings that a vector of pairs holds.
pub open spec fn bindings_of(v: Seq<(String, String)>) -> Bindings {
    v.map_values(|p: (String, String)| (p.0@, p.1@))
}

fn lookup_binding(ctx: &Vec<(String, String)>, key: &String) -> (r: Option<String>)
    ensures
        r matches Some(v) ==> lookup(bindings_of(ctx@), key@) == Some(v@),
        r is None ==> lookup(bindings_of(ctx@), key@) is None,
{
    let mut i: usize = ctx.len();
    assert(bindings_of(ctx@).subrange(0, i as int) =~= bindings_of(ctx@));
    while i > 0
        invariant
            i <= ctx@.len(),
            lookup(bindings_of(ctx@), key@) == lookup(bindings_of(ctx@).subrange(0, i as int), key@),
        decreases i,
    {
        let ghost b = bindings_of(ctx@).subrange(0, i as int);
        assert(b.drop_last() =~= bindings_of(ctx@).subrange(0, i - 1));
        assert(b.last() == (ctx@[i - 1].0@, ctx@[i - 1].1@));
        if ctx[i - 1].0 == *key {
            return Some(ctx[i - 1].1.clone());
        }
        i = i - 1;
    }
    None
}

fn resolve_source(src: &Source, ctx: &Vec<(String, String)>) -> (r: Result<String, CompileError>)
    ensures
        match resolve(*src, bindings_of(ctx@)) {
            Ok(c) => r matches Ok(s) && s@ == c,
            Err(f) => r matches Err(e) && e@ == f,
        },
{
    match src {
        Source::Str(s) => Ok(s.clone()),
        Source::Ident(k) => match lookup_binding(ctx, k) {
            Some(v) => Ok(v),
            None => Err(CompileError::UnresolvedVariable(k.clone())),
        },
    }
}

fn emit(out: &mut Vec<Instruction>, ins: Instruction)
    ensures
        ops_of(final(out)@) == ops_of(old(out)@).push(ins@),
{
    let ghost v = ins@;
    out.push(ins);
    assert(ops_of(final(out)@) =~= ops_of(old(out)@).push(v));
}

/// The time per character at `n` characters a second, in microseconds.
pub fn speed_of(n: u64) -> (r: u64)
    ensures
        r == speed_micros(n),
{
    if n == 0 {
        u64::MAX
    } else {
        1_000_000 / n
    }
}

fn times(a: u64, b: u64) -> (r: u64)
    ensures
        r == sat_mul(a, b),
{
    proof {
        assert((a as int) * (b as int) <= (u64::MAX as int) * (u64::MAX as int)) by (nonlinear_arith);
    }
    let p = (a as u128) * (b as u128);
    if p > u64::MAX as u128 {
        u64::MAX
    } else {
        p as u64
    }
}

fn trim_newline(s: String, trim: bool) -> (r: String)
    ensures
        r@ == trimmed(s@, trim),
{
    if !trim {
        return s;
    }
    let chars = chars_of(s.as_str());
    let n = chars.len();
    if n > 0 && chars[n - 1] == '\n' {
        let r = string_of(&copy_range(&chars, 0, n - 1));
        assert(r@ =~= s@.drop_last());
        r
    } else {
        s
    }
}

fn value_from(v: &Variable) -> (r: Value)
    ensures
        r@ == value_of(*v),
{
    match v {
        Variable::Bool(b) => Value::Bool(*b),
        Variable::Str(s) => Value::Str(s.clone()),
        Variable::Int(i) => Value::Int(*i),
    }
}


/// Lowers one directive onto the end of `out`.
fn lower_step(
    ins: &script::Instruction,
    ctx: &mut Vec<(String, String)>,
    loaded: &Vec<Option<String>>,
    li: &mut usize,
    out: &mut Vec<Instruction>,
) -> (r: Result<(), CompileError>)
    ensures
        match lower_one(*ins, bindings_of(old(ctx)@), loaded_view(loaded@), *old(li) as nat) {
            Ok((ops, ctx2, li2)) => {
                &&& r is Ok
                &&& ops_of(final(out)@) == ops_of(old(out)@) + ops
                &&& bindings_of(final(ctx)@) == ctx2
                &&& *final(li) == li2
            },
            Err(f) => r matches Err(e) && e@ == f,
        },
{
    let ghost start = ops_of(out@);
    match ins {
        script::Instruction::Load(path, key) => {
            if *li < loaded.len() {
                match &loaded[*li] {
                    Some(content) => {
                        let ghost c = ctx@;
                        ctx.push((key.clone(), content.clone()));
                        assert(bindings_of(ctx@) =~= bindings_of(c).push((key@, content@)));
                        *li = *li + 1;
                        assert(ops_of(out@) =~= start + Seq::<Op>::empty());
                        return Ok(());
                    },
                    None => {},
                }
            }
            return Err(CompileError::Import(path.clone()));
        },
        script::Instruction::Find { needle, count } => {
            emit(out, Instruction::FindInCurrentLine { needle: needle.clone(), end_of_word: false, count: *count });
        },
        script::Instruction::FindEnd { needle, count } => {
            emit(out, Instruction::FindInCurrentLine { needle: needle.clone(), end_of_word: true, count: *count });
        },
        script::Instruction::Goto(Dest::Relative { row, col }) => {
            emit(out, Instruction::Jump { col: *col, row: *row });
        },
        script::Instruction::Goto(Dest::Marker(name)) => {
            emit(out, Instruction::JumpToMarker(name.clone()));
        },
        script::Instruction::Select { width, height } => {
            emit(out, Instruction::Select(Size::new(*width, *height)));
        },
        script::Instruction::Delete => {
            emit(out, Instruction::Delete);
        },
        script::Instruction::Type { source, trim_trailing_newline, prefix_newline } => {
            let content = resolve_source(source, ctx)?;
            let content = trim_newline(content, *trim_trailing_newline);
            let ghost pre: Seq<Op> = Seq::empty();
            if *prefix_newline {
                let nl = string_of(&vec!['\n']);
                assert(nl@ =~= seq!['\n']);
                emit(out, Instruction::Insert(nl));
                proof {
                    pre = seq![Op::Insert(seq!['\n'])];
                }
            }
            assert(ops_of(out@) =~= start + pre);
            let ghost c = content@;
            emit(out, Instruction::LoadTypeBuffer(content));
            assert(ops_of(out@) =~= start + (pre + seq![Op::LoadTypeBuffer(c)]));
        },
        script::Instruction::Command(source) => {
            let cmd = resolve_source(source, ctx)?;
            let ghost c = cmd@;
            emit(out, Instruction::LoadCommandBuffer(cmd));
            emit(out, Instruction::ClearCommandWait);
            emit(out, Instruction::ClearCommandBuffer);
            assert(ops_of(out@) =~= start + seq![Op::LoadCommandBuffer(c), Op::ClearCommandWait, Op::ClearCommandBuffer]);
        },
        script::Instruction::Insert(source) => {
            let content = resolve_source(source, ctx)?;
            emit(out, Instruction::Insert(content));
        },
        script::Instruction::Replace { src, replacement } => {
            let content = resolve_source(replacement, ctx)?;
            let width = text_width(src.as_str());
            emit(out, Instruction::FindInCurrentLine { needle: src.clone(), end_of_word: false, count: 1 });
            emit(out, Instruction::Select(Size::new(width, 1)));
            emit(out, Instruction::Delete);
            let ghost c = content@;
            emit(out, Instruction::LoadTypeBuffer(content));
            assert(ops_of(out@) =~= start + seq![
                Op::FindInCurrentLine { needle: src@, end_of_word: false, count: 1 },
                Op::Select(Size { width: str_width_of(src@), height: 1 }),
                Op::Delete,
                Op::LoadTypeBuffer(c),
            ]);
        },
        script::Instruction::Wait(secs) => {
            emit(out, Instruction::Wait(times(*secs, 1_000_000)));
        },
        script::Instruction::Speed(n) => {
            emit(out, Instruction::Speed(speed_of(*n)));
        },
        script::Instruction::LinePause(ms) => {
            emit(out, Instruction::LinePause(times(*ms, 1000)));
        },
        script::Instruction::SetTitle(t) => {
            emit(out, Instruction::SetTitle(t.clone()));
        },
        script::Instruction::SetExtension(e) => {
            emit(out, Instruction::SetExtension(e.clone()));
        },
        script::Instruction::ShowLineNumbers(b) => {
            emit(out, Instruction::ShowLineNumbers(*b));
        },
        script::Instruction::Jitter(ms) => {
            emit(out, Instruction::SetJitter(*ms));
        },
        script::Instruction::SetTheme(t) => {
            emit(out, Instruction::SetTheme(t.clone()));
        },
        script::Instruction::LoadAudio(p) => {
            emit(out, Instruction::LoadAudio(p.clone()));
        },
        script::Instruction::Clear => {
            emit(out, Instruction::Clear);
        },
        script::Instruction::Popup(source) => {
            let msg = resolve_source(source, ctx)?;
            emit(out, Instruction::Popup(msg));
        },
        script::Instruction::ClosePopup => {
            emit(out, Instruction::ClosePopup);
        },
        script::Instruction::WriteBuffer(p) => {
            emit(out, Instruction::WriteBuffer(p.clone()));
        },
        script::Instruction::CommandClearTimeout(ms) => {
            emit(out, Instruction::CommandClearTimeout(times(*ms, 1000)));
        },
        script::Instruction::Assign(name, var) => {
            if let Variable::Str(s) = var {
                let ghost c = ctx@;
                ctx.push((name.clone(), s.clone()));
                assert(bindings_of(ctx@) =~= bindings_of(c).push((name@, s@)));
            }
            emit(out, Instruction::SetVariable(name.clone(), value_from(var)));
        },
    }
    assert(ops_of(out@) =~= start + lower_one(*ins, bindings_of(old(ctx)@), loaded_view(loaded@), *old(li) as nat)->Ok_0.0);
    Ok(())
}

/// Lowers a script into the editor's instructions. `loaded` holds, for each
/// `Load` directive in order, the file's contents, or `None` where it could
/// not be read.
pub fn compile(parsed: &Vec<script::Instruction>, loaded: &Vec<Option<String>>) -> (r: Result<Vec<Instruction>, CompileError>)
    ensures
        r is Ok <==> lower(parsed@, 0, Seq::empty(), loaded_view(loaded@), 0) is Ok,
        r matches Ok(v) ==> lower(parsed@, 0, Seq::empty(), loaded_view(loaded@), 0) == Ok::<Seq<Op>, Fault>(ops_of(v@)),
        r matches Err(e) ==> lower(parsed@, 0, Seq::empty(), loaded_view(loaded@), 0) == Err::<Seq<Op>, Fault>(e@),
{
    let ghost lv = loaded_view(loaded@);
    let mut ctx: Vec<(String, String)> = Vec::new();
    let mut li: usize = 0;
    let mut out: Vec<Instruction> = Vec::new();
    let mut i: usize = 0;
    assert(bindings_of(ctx@) =~= Seq::<(Seq<char>, Seq<char>)>::empty());
    assert(ops_of(out@) =~= Seq::<Op>::empty());
    while i < parsed.len()
        invariant
            i <= parsed@.len(),
            lv == loaded_view(loaded@),
            lower(parsed@, 0, Seq::empty(), lv, 0) == match lower(parsed@, i as int, bindings_of(ctx@), lv, li as nat) {
                Ok(rest) => Ok(ops_of(out@) + rest),
                Err(f) => Err::<Seq<Op>, Fault>(f),
            },
        decreases parsed@.len() - i,
    {
        let ghost before = ops_of(out@);
        let ghost c = bindings_of(ctx@);
        let ghost l = li as nat;
        lower_step(&parsed[i], &mut ctx, loaded, &mut li, &mut out)?;
        proof {
            let step = lower_one(parsed@[i as int], c, lv, l)->Ok_0;
            match lower(parsed@, i + 1, bindings_of(ctx@), lv, li as nat) {
                Ok(rest) => {
                    assert(before + (step.0 + rest) =~= ops_of(out@) + rest);
                },
                Err(f) => {},
            }
        }
        i = i + 1;
    }
    assert(ops_of(out@) + Seq::<Op>::empty() =~= ops_of(out@));
    Ok(out)
}

/// The paths that the `Load` directives of `parsed` name, in order.
pub fn load_paths(parsed: &Vec<script::Instruction>) -> (r: Vec<String>)
    ensures
        r@.len() == loads(parsed@, parsed@.len() as int).len(),
        forall|k: int| 0 <= k < r@.len() ==> #[trigger] r@[k]@ == loads(parsed@, parsed@.len() as int)[k],
{
    let mut r: Vec<String> = Vec::new();
    let mut i: usize = 0;
    while i < parsed.len()
        invariant
            i <= parsed@.len(),
            r@.len() == loads(parsed@, i as int).len(),
            forall|k: int| 0 <= k < r@.len() ==> #[trigger] r@[k]@ == loads(parsed@, i as int)[k],
        decreases parsed@.len() - i,
    {
        if let script::Instruction::Load(path, _) = &parsed[i] {
            r.push(path.clone());
        }
        i = i + 1;
    }
    r
}

/// The paths named by the `Load` directives among the first `n`.
pub open spec fn loads(prog: Seq<script::Instruction>, n: int) -> Seq<Seq<char>>
    decreases n,
{
    if n <= 0 || n > prog.len() {
        Seq::empty()
    } else {
        match prog[n - 1] {
            script::Instruction::Load(path, _) => loads(prog, n - 1).push(path@),
            _ => loads(prog, n - 1),
        }
    }
}


/// Doubling the typing rate halves the time per character, up to the
/// rounding of integer division.
pub proof fn lemma_speed_doubling(n: u64)
    requires
        0 < n,
        2 * n <= u64::MAX,
    ensures
        2 * speed_micros((2 * n) as u64) <= speed_micros(n) <= 2 * speed_micros((2 * n) as u64) + 1,
{
    let q = 1_000_000int / (n as int);
    vstd::arithmetic::div_mod::lemma_div_denominator(1_000_000int, n as int, 2);
    vstd::arithmetic::div_mod::lemma_fundamental_div_mod(q, 2);
    assert(1_000_000int / (n as int * 2) == q / 2);
    assert((n as int) * 2 == (2 * n) as int);
}

/// A script that starts by loading a file that could not be read fails with
/// the import error for that path, and yields no instructions.
pub proof fn lemma_missing_load_fails(prog: Seq<script::Instruction>, loaded: Seq<Option<Seq<char>>>)
    requires
        prog.len() > 0,
        prog[0] is Load,
        loaded.len() == 0 || loaded[0] is None,
    ensures
        lower(prog, 0, Seq::empty(), loaded, 0) == Err::<Seq<Op>, Fault>(Fault::Import(prog[0]->Load_0@)),
{
}

proof fn lemma_lower_suffix(a: Seq<script::Instruction>, q: Seq<script::Instruction>, k: int, ctx: Bindings, loaded: Seq<Option<Seq<char>>>, li: nat)
    requires
        0 <= k <= q.len(),
    ensures
        lower(a + q, a.len() + k, ctx, loaded, li) == lower(q, k, ctx, loaded, li),
    decreases q.len() - k,
{
    if k < q.len() {
        assert((a + q)[a.len() + k] == q[k]);
        match lower_one(q[k], ctx, loaded, li) {
            Ok((ops, c2, l2)) => lemma_lower_suffix(a, q, k + 1, c2, loaded, l2),
            Err(_) => {},
        }
    }
}

/// `Replace` lowers to exactly what finding the needle, selecting its width
/// on one row, deleting and typing the replacement lower to, whatever
/// follows and whatever was bound before.
pub proof fn lemma_replace_is_find_select_delete_type(
    needle: String,
    replacement: Source,
    rest: Seq<script::Instruction>,
    ctx: Bindings,
    loaded: Seq<Option<Seq<char>>>,
    li: nat,
)
    ensures
        lower(seq![script::Instruction::Replace { src: needle, replacement }] + rest, 0, ctx, loaded, li)
            == lower(
            seq![
                script::Instruction::Find { needle, count: 1 },
                script::Instruction::Select { width: str_width_of(needle@), height: 1 },
                script::Instruction::Delete,
                script::Instruction::Type { source: replacement, trim_trailing_newline: false, prefix_newline: false },
            ] + rest,
            0,
            ctx,
            loaded,
            li,
        ),
{
    let one = seq![script::Instruction::Replace { src: needle, replacement }];
    let four = seq![
        script::Instruction::Find { needle, count: 1 },
        script::Instruction::Select { width: str_width_of(needle@), height: 1 },
        script::Instruction::Delete,
        script::Instruction::Type { source: replacement, trim_trailing_newline: false, prefix_newline: false },
    ];
    lemma_lower_suffix(one, rest, 0, ctx, loaded, li);
    lemma_lower_suffix(four, rest, 0, ctx, loaded, li);
    let l = one + rest;
    let f = four + rest;
    assert(l[0] == one[0]);
    assert(f[0] == four[0]);
    assert(f[1] == four[1]);
    assert(f[2] == four[2]);
    assert(f[3] == four[3]);
    let tail = lower(rest, 0, ctx, loaded, li);
    assert(lower(f, 3, ctx, loaded, li) == match lower_one(f[3], ctx, loaded, li) {
        Err(x) => Err(x),
        Ok((ops, c2, l2)) => match lower(f, 4, c2, loaded, l2) {
            Err(x) => Err(x),
            Ok(r) => Ok(ops + r),
        },
    });
    assert(lower(f, 2, ctx, loaded, li) == match lower(f, 3, ctx, loaded, li) {
        Err(x) => Err(x),
        Ok(r) => Ok::<Seq<Op>, Fault>(seq![Op::Delete] + r),
    });
    assert(lower(f, 1, ctx, loaded, li) == match lower(f, 2, ctx, loaded, li) {
        Err(x) => Err(x),
        Ok(r) => Ok::<Seq<Op>, Fault>(seq![Op::Select(Size { width: str_width_of(needle@), height: 1 })] + r),
    });
    assert(lower(f, 0, ctx, loaded, li) == match lower(f, 1, ctx, loaded, li) {
        Err(x) => Err(x),
        Ok(r) => Ok::<Seq<Op>, Fault>(seq![Op::FindInCurrentLine { needle: needle@, end_of_word: false, count: 1 }] + r),
    });
    match resolve(replacement, ctx) {
        Ok(c) => {
            match tail {
                Ok(t) => {
                    let a = seq![Op::FindInCurrentLine { needle: needle@, end_of_word: false, count: 1 }];
                    let b = seq![Op::Select(Size { width: str_width_of(needle@), height: 1 })];
                    let d = seq![Op::Delete];
                    let e = seq![Op::LoadTypeBuffer(c)];
                    assert(trimmed(c, false) == c);
                    assert(Seq::<Op>::empty() + e =~= e);
                    assert(a + (b + (d + (e + t))) =~= (a + b + d + e) + t);
                    assert(a + b + d + e =~= seq![
                        Op::FindInCurrentLine { needle: needle@, end_of_word: false, count: 1 },
                        Op::Select(Size { width: str_width_of(needle@), height: 1 }),
                        Op::Delete,
                        Op::LoadTypeBuffer(c),
                    ]);
                },
                Err(_) => {},
            }
        },
        Err(_) => {},
    }
}


proof fn lemma_lower_same_tail(
    p: Seq<script::Instruction>,
    x: Seq<script::Instruction>,
    y: Seq<script::Instruction>,
    i: int,
    ctx: Bindings,
    loaded: Seq<Option<Seq<char>>>,
    li: nat,
)
    requires
        0 <= i <= p.len(),
        forall|c: Bindings, l: nat| #[trigger] lower(x, 0, c, loaded, l) == lower(y, 0, c, loaded, l),
    ensures
        lower(p + x, i, ctx, loaded, li) == lower(p + y, i, ctx, loaded, li),
    decreases p.len() - i,
{
    if i == p.len() {
        lemma_lower_suffix(p, x, 0, ctx, loaded, li);
        lemma_lower_suffix(p, y, 0, ctx, loaded, li);
        assert(lower(x, 0, ctx, loaded, li) == lower(y, 0, ctx, loaded, li));
    } else {
        assert((p + x)[i] == p[i]);
        assert((p + y)[i] == p[i]);
        match lower_one(p[i], ctx, loaded, li) {
            Ok((ops, c2, l2)) => lemma_lower_same_tail(p, x, y, i + 1, c2, loaded, l2),
            Err(_) => {},
        }
    }
}

/// Wherever it stands in a script, `Replace` lowers to exactly what finding
/// the needle, selecting its width on one row, deleting and typing the
/// replacement lower to there.
pub proof fn lemma_replace_anywhere(
    prefix: Seq<script::Instruction>,
    needle: String,
    replacement: Source,
    rest: Seq<script::Instruction>,
    ctx: Bindings,
    loaded: Seq<Option<Seq<char>>>,
    li: nat,
)
    ensures
        lower(prefix + (seq![script::Instruction::Replace { src: needle, replacement }] + rest), 0, ctx, loaded, li)
            == lower(
            prefix + (seq![
                script::Instruction::Find { needle, count: 1 },
                script::Instruction::Select { width: str_width_of(needle@), height: 1 },
                script::Instruction::Delete,
                script::Instruction::Type { source: replacement, trim_trailing_newline: false, prefix_newline: false },
            ] + rest),
            0,
            ctx,
            loaded,
            li,
        ),
{
    let x = seq![script::Instruction::Replace { src: needle, replacement }] + rest;
    let y = seq![
        script::Instruction::Find { needle, count: 1 },
        script::Instruction::Select { width: str_width_of(needle@), height: 1 },
        script::Instruction::Delete,
        script::Instruction::Type { source: replacement, trim_trailing_newline: false, prefix_newline: false },
    ] + rest;
    assert forall|c: Bindings, l: nat| #[trigger] lower(x, 0, c, loaded, l) == lower(y, 0, c, loaded, l) by {
        lemma_replace_is_find_select_delete_type(needle, replacement, rest, c, loaded, l);
    }
    lemma_lower_same_tail(prefix, x, y, 0, ctx, loaded, li);
}

proof fn lemma_load_counts(ins: script::Instruction, ctx: Bindings, loaded: Seq<Option<Seq<char>>>, li: nat)
    ensures
        lower_one(ins, ctx, loaded, li) matches Ok((o, c2, l2)) ==> l2 == li + if ins is Load {
            1nat
        } else {
            0nat
        },
{
}

proof fn lemma_failed_load(
    prog: Seq<script::Instruction>,
    i: int,
    j: int,
    ctx: Bindings,
    loaded: Seq<Option<Seq<char>>>,
    li: nat,
)
    requires
        0 <= j <= i < prog.len(),
        prog[i] is Load,
        li == loads(prog, j).len(),
        loads(prog, i).len() >= loaded.len() || loaded[loads(prog, i).len() as int] is None,
        lower(prog.subrange(0, i), j, ctx, loaded, li) is Ok,
    ensures
        lower(prog, j, ctx, loaded, li) == Err::<Seq<Op>, Fault>(Fault::Import(prog[i]->Load_0@)),
    decreases i - j,
{
    if j < i {
        let pre = prog.subrange(0, i);
        assert(pre[j] == prog[j]);
        lemma_load_counts(prog[j], ctx, loaded, li);
        assert(loads(prog, j + 1).len() == loads(prog, j).len() + if prog[j] is Load {
            1nat
        } else {
            0nat
        });
        match lower_one(prog[j], ctx, loaded, li) {
            Ok((ops, c2, l2)) => {
                lemma_failed_load(prog, i, j + 1, c2, loaded, l2);
            },
            Err(_) => {},
        }
    }
}

/// A `Load` of a file that could not be read fails the whole compilation
/// with the import error for its path, whatever follows it, once the
/// directives before it compile: no partial list of instructions is ever
/// returned. The file's contents are the entry of `loaded` that belongs to
/// this `Load`, counting the `Load` directives before it.
pub proof fn lemma_unreadable_load_fails(prog: Seq<script::Instruction>, i: int, loaded: Seq<Option<Seq<char>>>)
    requires
        0 <= i < prog.len(),
        prog[i] is Load,
        loads(prog, i).len() >= loaded.len() || loaded[loads(prog, i).len() as int] is None,
        lower(prog.subrange(0, i), 0, Seq::empty(), loaded, 0) is Ok,
    ensures
        lower(prog, 0, Seq::empty(), loaded, 0) == Err::<Seq<Op>, Fault>(Fault::Import(prog[i]->Load_0@)),
{
    assert(loads(prog, 0).len() == 0);
    lemma_failed_load(prog, i, 0, Seq::empty(), loaded, 0);
}

} // verus!
