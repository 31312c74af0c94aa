//! Middleware sandbox host. A middleware is a WebAssembly program exporting
//! `memory` and `prism_mw_run(prelude_len: i32, ctx_ptr: i32) -> i64`. The
//! host places the prelude at offset 0 of linear memory and a 16-byte
//! little-endian context record at an 8-byte-aligned offset behind it, grows
//! memory so at least four pages are available, and validates every pointer
//! and length a module hands back before touching its memory.
//!
//! Return values: `0` means need-more-data, `1` no-match, `-1` fatal; any
//! other non-negative value packs `(ptr, len)` (low/high 32 bits) of a
//! 16-byte output record `{ host_ptr, host_len, rw_ptr, rw_len }`.
//!
//! Only the calls into wasmer are trusted; the layout arithmetic, the bounds
//! checks, the record parsing and the chain semantics are verified.

use vstd::prelude::*;

use crate::text;

verus! {

use vstd::string::*;

#[derive(Debug, Clone, PartialEq, Eq)]
pub enum MiddlewareError {
    NeedMoreData,
    NoMatch,
    Fatal(String),
}

#[derive(Debug, Clone, Copy, PartialEq, Eq, Structural)]
pub enum MiddlewarePhase {
    /// Extract the routing host.
    Parse,
    /// Rewrite the captured prelude before proxying upstream.
    Rewrite,
}

/// The wire encoding of a phase in the context record.
pub open spec fn spec_phase_code(p: MiddlewarePhase) -> u32 {
    match p {
        MiddlewarePhase::Parse => 0,
        MiddlewarePhase::Rewrite => 1,
    }
}

/// Per-invocation context handed to a middleware.
#[derive(Debug, Clone)]
pub struct MiddlewareCtx {
    pub phase: MiddlewarePhase,
    /// The selected upstream label, when known (rewrite phase).
    pub selected_upstream: Option<String>,
}

impl MiddlewareCtx {
    /// Context for the parse phase.
    pub fn parse() -> (r: MiddlewareCtx)
        ensures
            r.phase == MiddlewarePhase::Parse,
            r.selected_upstream is None,
    {
        MiddlewareCtx { phase: MiddlewarePhase::Parse, selected_upstream: None }
    }

    /// Context for the rewrite phase, carrying the trimmed upstream label.
    pub fn rewrite(selected_upstream: &str) -> (r: MiddlewareCtx)
        ensures
            r.phase == MiddlewarePhase::Rewrite,
            r.selected_upstream matches Some(u) && u@ == text::spec_trim(selected_upstream@),
    {
        MiddlewareCtx {
            phase: MiddlewarePhase::Rewrite,
            selected_upstream: Some(text::trim_str(selected_upstream)),
        }
    }
}

/// What one middleware invocation produced.
#[derive(Debug, Clone)]
pub struct MiddlewareOutput {
    /// Routing host extracted by this middleware, trimmed and lowercased.
    pub host: Option<String>,
    /// Replacement bytes for the captured prelude.
    pub rewrite: Option<Vec<u8>>,
}

// ---------------------------------------------------------------------------
// Little-endian context and output records.
// ---------------------------------------------------------------------------

pub open spec fn spec_u32_le(n: u32) -> Seq<u8> {
    seq![
        (n % 0x100) as u8,
        ((n / 0x100) % 0x100) as u8,
        ((n / 0x1_0000) % 0x100) as u8,
        (n / 0x100_0000) as u8,
    ]
}

/// The 16-byte context record: version 1, phase, upstream pointer, upstream
/// length, each little-endian.
pub open spec fn spec_ctx_bytes(phase: MiddlewarePhase, uptr: u32, ulen: u32) -> Seq<u8> {
    spec_u32_le(1) + spec_u32_le(spec_phase_code(phase)) + spec_u32_le(uptr) + spec_u32_le(ulen)
}

fn write_u32_le(out: &mut Vec<u8>, n: u32)
    ensures
        final(out)@ == old(out)@ + spec_u32_le(n),
{
    out.push((n % 0x100) as u8);
    out.push(((n / 0x100) % 0x100) as u8);
    out.push(((n / 0x1_0000) % 0x100) as u8);
    out.push((n / 0x100_0000) as u8);
    proof {
        assert(out@ =~= old(out)@ + spec_u32_le(n));
    }
}

fn build_ctx_bytes(phase: MiddlewarePhase, uptr: u32, ulen: u32) -> (r: Vec<u8>)
    ensures
        r@ == spec_ctx_bytes(phase, uptr, ulen),
{
    let mut out: Vec<u8> = Vec::new();
    write_u32_le(&mut out, 1);
    let code: u32 = match phase {
        MiddlewarePhase::Parse => 0,
        MiddlewarePhase::Rewrite => 1,
    };
    write_u32_le(&mut out, code);
    write_u32_le(&mut out, uptr);
    write_u32_le(&mut out, ulen);
    proof {
        assert(out@ =~= spec_ctx_bytes(phase, uptr, ulen));
    }
    out
}

pub open spec fn spec_le_u32(b0: u8, b1: u8, b2: u8, b3: u8) -> u32 {
    ((b0 as nat) + (b1 as nat) * 0x100 + (b2 as nat) * 0x1_0000 + (b3 as nat)
        * 0x100_0000) as u32
}

fn read_u32_le(buf: &Vec<u8>, i: usize) -> (n: u32)
    requires
        i + 4 <= buf@.len(),
    ensures
        n == spec_le_u32(buf@[i as int], buf@[i as int + 1], buf@[i as int + 2], buf@[i as int + 3]),
{
    let _len: usize = buf.len();
    let b0 = buf[i] as u32;
    let b1 = buf[i + 1] as u32;
    let b2 = buf[i + 2] as u32;
    let b3 = buf[i + 3] as u32;
    b0 + b1 * 0x100 + b2 * 0x1_0000 + b3 * 0x100_0000
}

/// What a middleware's `i64` return value means under the v1 ABI.
#[derive(Debug, Clone, Copy, PartialEq, Eq, Structural)]
pub enum MwCode {
    NeedMore,
    NoMatch,
    Fatal,
    /// Record pointer (low 32 bits) and record length (high 32 bits).
    Packed(u32, u32),
}

/// The ABI mapping: `0` is need-more-data, `1` no-match, a negative value
/// fatal (`-1` is the declared code; any other negative would pack a
/// record length of two gigabytes or more, beyond any memory this host
/// grows), and every other value packs `(ptr, len)`.
pub open spec fn spec_classify_mw_code(code: i64) -> MwCode {
    if code == 0 {
        MwCode::NeedMore
    } else if code == 1 {
        MwCode::NoMatch
    } else if code < 0 {
        MwCode::Fatal
    } else {
        MwCode::Packed((code % 0x1_0000_0000) as u32, (code / 0x1_0000_0000) as u32)
    }
}

/// Classifies a middleware return code per the v1 ABI.
pub fn classify_mw_code(code: i64) -> (r: MwCode)
    ensures
        r == spec_classify_mw_code(code),
{
    if code == 0 {
        MwCode::NeedMore
    } else if code == 1 {
        MwCode::NoMatch
    } else if code < 0 {
        MwCode::Fatal
    } else {
        MwCode::Packed((code % 0x1_0000_0000) as u32, (code / 0x1_0000_0000) as u32)
    }
}

// ---------------------------------------------------------------------------
// Trusted wasmer surface.
// ---------------------------------------------------------------------------

#[verifier::external_type_specification]
#[verifier::external_body]
pub struct ExEngine(wasmer::Engine);

#[verifier::external_type_specification]
#[verifier::external_body]
pub struct ExModule(wasmer::Module);

#[verifier::external_type_specification]
#[verifier::external_body]
pub struct ExStore(wasmer::Store);

#[verifier::external_type_specification]
#[verifier::external_body]
pub struct ExMemory(wasmer::Memory);

#[verifier::external_type_specification]
#[verifier::external_body]
pub struct ExFunction(wasmer::Function);

/// Relies on `wasmer::Engine::clone`: engines are reference-counted
/// handles, so a clone shares the same compiled code.
pub assume_specification[ <wasmer::Engine as Clone>::clone ](e: &wasmer::Engine)
    -> wasmer::Engine;

/// Relies on `wasmer::Module::clone`: modules are reference-counted
/// handles, so a clone shares the same compiled module.
pub assume_specification[ <wasmer::Module as Clone>::clone ](m: &wasmer::Module)
    -> wasmer::Module;

/// A compiled module and the engine that owns its code.
#[derive(Clone)]
pub struct WasmModule {
    pub engine: wasmer::Engine,
    pub module: wasmer::Module,
}

/// One fresh instantiation: its store, exported memory and entry function.
/// A new one is made per invocation, so no state leaks across calls.
pub struct WasmInstance {
    pub store: wasmer::Store,
    pub memory: wasmer::Memory,
    pub func: wasmer::Function,
}

/// Relies on `wasmer::Module::new`, which accepts WAT text and rejects
/// invalid programs at compile time. Memories are kept dynamic with small
/// guard regions, so instantiation reserves little address space.
#[verifier::external_body]
fn compile_module(wat: &Vec<u8>) -> (r: Result<WasmModule, String>)
{
    let mut engine = wasmer::Engine::default();
    wasmer::sys::NativeEngineExt::set_tunables(&mut engine, wasmer::sys::BaseTunables {
        static_memory_bound: wasmer::Pages(0),
        static_memory_offset_guard_size: 0x1000,
        dynamic_memory_offset_guard_size: 0x1000,
    });
    let store = wasmer::Store::new(engine.clone());
    let module = wasmer::Module::new(&store, wat.as_slice()).map_err(|e| e.to_string())?;
    Ok(WasmModule { engine, module })
}

/// Relies on `wasmer::Instance::new` and the exports API: a fresh instance
/// with no imports, its exported `memory`, and the named entry function.
#[verifier::external_body]
fn instantiate(m: &WasmModule, export: &str) -> (r: Result<WasmInstance, String>)
{
    let mut store = wasmer::Store::new(m.engine.clone());
    let imports = wasmer::Imports::new();
    let inst = wasmer::Instance::new(&mut store, &m.module, &imports).map_err(
        |e| e.to_string(),
    )?;
    let func = inst.exports.get_function(export).map_err(|e| e.to_string())?.clone();
    let memory = inst.exports.get_memory("memory").map_err(|e| e.to_string())?.clone();
    Ok(WasmInstance { store, memory, func })
}

/// Relies on `wasmer::MemoryView::data_size`: the current size of the
/// instance's linear memory in bytes.
#[verifier::external_body]
fn mem_data_size(inst: &WasmInstance) -> (r: u64)
{
    inst.memory.view(&inst.store).data_size()
}

/// Relies on `wasmer::Memory::grow`: adds `pages` 64 KiB pages.
#[verifier::external_body]
fn mem_grow(inst: &mut WasmInstance, pages: u32) -> (r: Result<(), String>)
{
    inst.memory.grow(&mut inst.store, wasmer::Pages(pages)).map(|_| ()).map_err(
        |e| e.to_string(),
    )
}

/// Relies on `wasmer::MemoryView::write` at the given offset.
#[verifier::external_body]
fn mem_write(inst: &mut WasmInstance, offset: u64, data: &Vec<u8>) -> (r: Result<(), String>)
{
    inst.memory.view(&inst.store).write(offset, data.as_slice()).map_err(|e| e.to_string())
}

/// Relies on `wasmer::MemoryView::read`: on success the buffer is filled
/// whole, so the result holds exactly `len` bytes.
#[verifier::external_body]
fn mem_read(inst: &WasmInstance, offset: u64, len: usize) -> (r: Result<Vec<u8>, String>)
    ensures
        r matches Ok(v) ==> v@.len() == len,
{
    let mut buf = vec![0u8; len];
    inst.memory.view(&inst.store).read(offset, &mut buf).map_err(|e| e.to_string())?;
    Ok(buf)
}

/// Relies on `wasmer::Function::call` with two `i32` arguments; anything but
/// a single `i64` result is reported as an error.
#[verifier::external_body]
fn call_mw(inst: &mut WasmInstance, a: i32, b: i32) -> (r: Result<i64, String>)
{
    let params = [wasmer::Value::I32(a), wasmer::Value::I32(b)];
    let out = inst.func.call(&mut inst.store, &params).map_err(|e| e.to_string())?;
    match out.first() {
        Some(wasmer::Value::I64(v)) => Ok(*v),
        _ => Err("middleware: entry did not return an i64".to_string()),
    }
}

// ---------------------------------------------------------------------------
// One middleware: compile, instantiate fresh, run with the v1 ABI.
// ---------------------------------------------------------------------------

/// A named, compiled middleware. Each invocation instantiates it afresh.
#[derive(Clone)]
pub struct WasmMiddleware {
    pub name: String,
    pub module: WasmModule,
}

pub const WASM_PAGE_BYTES: u64 = 65536;

pub const MIN_MEMORY_BYTES: u64 = 262144;

impl WasmMiddleware {
    /// Compiles a middleware from WAT text; the name must not trim empty,
    /// and a raw wasm binary (leading `\0asm`) is refused so middleware
    /// sources on disk stay reviewable text.
    pub fn from_wat(name: &str, wat: &Vec<u8>) -> (r: Result<WasmMiddleware, String>)
        ensures
            text::spec_trim(name@).len() == 0 ==> r is Err,
            wat@.len() >= 4 && wat@.subrange(0, 4) == seq![0u8, 97u8, 115u8, 109u8] ==> r is Err,
            r matches Ok(m) ==> m.name@ == text::spec_trim(name@),
    {
        let trimmed = text::trim_str(name);
        if trimmed.as_str().unicode_len() == 0 {
            return Err(String::from_str("middleware: empty wasm middleware name"));
        }
        if wat.len() >= 4 && wat[0] == 0 && wat[1] == 97 && wat[2] == 115 && wat[3] == 109 {
            proof {
                assert(wat@.subrange(0, 4) =~= seq![0u8, 97u8, 115u8, 109u8]);
            }
            return Err(
                String::from_str("middleware: expected WAT text input but got a wasm binary"),
            );
        }
        proof {
            if wat@.len() >= 4 && wat@.subrange(0, 4) == seq![0u8, 97u8, 115u8, 109u8] {
                assert(wat@[0] == wat@.subrange(0, 4)[0]);
                assert(wat@[1] == wat@.subrange(0, 4)[1]);
                assert(wat@[2] == wat@.subrange(0, 4)[2]);
                assert(wat@[3] == wat@.subrange(0, 4)[3]);
            }
        }
        match compile_module(wat) {
            Ok(module) => Ok(WasmMiddleware { name: trimmed, module }),
            Err(e) => Err(e),
        }
    }

    /// The middleware's name.
    pub fn name(&self) -> (r: &str)
        ensures
            r@ == self.name@,
    {
        self.name.as_str()
    }

    /// Runs the middleware once on `prelude` under `ctx`, in a fresh
    /// instance. Whatever the module did, a successful result carries a
    /// non-empty output: a host (already trimmed and lowercased by this
    /// host runtime), replacement bytes, or both.
    pub fn apply(&self, prelude: &Vec<u8>, ctx: &MiddlewareCtx) -> (r: Result<
        MiddlewareOutput,
        MiddlewareError,
    >)
        ensures
            prelude@.len() > 0x7FFF_0000 ==> (r matches Err(e) && e is Fatal),
            ctx.selected_upstream matches Some(u) ==> (vstd::utf8::encode_utf8(u@).len()
                > 0xFFFF_0000 ==> !(r is Ok)),
            r matches Ok(out) ==> {
                &&& out.host is Some || out.rewrite is Some
                &&& out.host matches Some(h) ==> h@.len() > 0 && h@ == text::spec_trim_lower(h@)
            },
    {
        let mut inst = match instantiate(&self.module, "prism_mw_run") {
            Ok(i) => i,
            Err(e) => {
                return Err(MiddlewareError::Fatal(e));
            },
        };
        if prelude.len() > 0x7FFF_0000usize {
            return Err(MiddlewareError::Fatal(String::from_str("middleware: prelude too large")));
        }
        // Layout: [prelude @0] [ctx record @ align8] [upstream bytes].
        let plen: u64 = prelude.len() as u64;
        let ctx_ptr: u64 = ((plen + 7) / 8) * 8;
        let mut cursor: u64 = ctx_ptr + 16;
        let upstream: Vec<u8> = match &ctx.selected_upstream {
            Some(u) => u.as_str().as_bytes_vec(),
            None => Vec::new(),
        };
        if upstream.len() > 0xFFFF_0000usize {
            return Err(MiddlewareError::Fatal(String::from_str("middleware: upstream too large")));
        }
        let upstream_ptr: u64 = if upstream.len() > 0 {
            let p = cursor;
            cursor = cursor + upstream.len() as u64;
            p
        } else {
            0
        };
        if cursor > 0x7FFF_FF00u64 {
            return Err(MiddlewareError::Fatal(String::from_str("middleware: ctx overflow")));
        }
        // Grow memory to fit the layout, and to the four-page floor so a
        // module can place outputs at fixed offsets.
        let mut mem_size = mem_data_size(&inst);
        if cursor > mem_size {
            let delta = cursor - mem_size;
            let pages = (delta + (WASM_PAGE_BYTES - 1)) / WASM_PAGE_BYTES;
            if let Err(e) = mem_grow(&mut inst, pages as u32) {
                return Err(MiddlewareError::Fatal(e));
            }
            mem_size = mem_data_size(&inst);
        }
        if mem_size < MIN_MEMORY_BYTES {
            let pages = ((MIN_MEMORY_BYTES - mem_size) + (WASM_PAGE_BYTES - 1)) / WASM_PAGE_BYTES;
            if let Err(e) = mem_grow(&mut inst, pages as u32) {
                return Err(MiddlewareError::Fatal(e));
            }
        }
        if prelude.len() > 0 {
            if let Err(e) = mem_write(&mut inst, 0, prelude) {
                return Err(MiddlewareError::Fatal(e));
            }
        }
        if upstream.len() > 0 {
            if let Err(e) = mem_write(&mut inst, upstream_ptr, &upstream) {
                return Err(MiddlewareError::Fatal(e));
            }
        }
        let ctx_buf = build_ctx_bytes(ctx.phase, upstream_ptr as u32, upstream.len() as u32);
        if let Err(e) = mem_write(&mut inst, ctx_ptr, &ctx_buf) {
            return Err(MiddlewareError::Fatal(e));
        }
        let out = match call_mw(&mut inst, prelude.len() as i32, ctx_ptr as i32) {
            Ok(v) => v,
            Err(e) => {
                return Err(MiddlewareError::Fatal(e));
            },
        };
        let (rec_ptr32, rec_len32) = match classify_mw_code(out) {
            MwCode::NeedMore => {
                return Err(MiddlewareError::NeedMoreData);
            },
            MwCode::NoMatch => {
                return Err(MiddlewareError::NoMatch);
            },
            MwCode::Fatal => {
                return Err(
                    MiddlewareError::Fatal(String::from_str("middleware: fatal return code")),
                );
            },
            MwCode::Packed(p, l) => (p, l),
        };
        let rec_ptr: u64 = rec_ptr32 as u64;
        let rec_len: u64 = rec_len32 as u64;
        if rec_len < 16 {
            return Err(MiddlewareError::Fatal(String::from_str("middleware: output too small")));
        }
        let mem_now = mem_data_size(&inst);
        if rec_ptr + rec_len > mem_now {
            return Err(MiddlewareError::Fatal(String::from_str("middleware: output out of bounds")));
        }
        let header = match mem_read(&inst, rec_ptr, 16) {
            Ok(h) => h,
            Err(e) => {
                return Err(MiddlewareError::Fatal(e));
            },
        };
        let host_ptr = read_u32_le(&header, 0);
        let host_len = read_u32_le(&header, 4);
        let rw_ptr = read_u32_le(&header, 8);
        let rw_len = read_u32_le(&header, 12);
        let mut result = MiddlewareOutput { host: None, rewrite: None };
        if host_len > 0 {
            if host_ptr as u64 + host_len as u64 > mem_now {
                return Err(MiddlewareError::Fatal(String::from_str("middleware: host out of bounds")));
            }
            let raw = match mem_read(&inst, host_ptr as u64, host_len as usize) {
                Ok(b) => b,
                Err(e) => {
                    return Err(MiddlewareError::Fatal(e));
                },
            };
            let text_host = text::bytes_to_string_lossy(&raw);
            let host = text::trim_lower_str(text_host.as_str());
            if host.as_str().unicode_len() > 0 {
                proof {
                    text::lemma_trim_lower_idempotent(text_host@);
                }
                result.host = Some(host);
            }
        }
        if rw_len > 0 {
            if rw_ptr as u64 + rw_len as u64 > mem_now {
                return Err(MiddlewareError::Fatal(
                    String::from_str("middleware: rewrite out of bounds"),
                ));
            }
            let rw = match mem_read(&inst, rw_ptr as u64, rw_len as usize) {
                Ok(b) => b,
                Err(e) => {
                    return Err(MiddlewareError::Fatal(e));
                },
            };
            result.rewrite = Some(rw);
        }
        if result.host.is_none() && result.rewrite.is_none() {
            return Err(MiddlewareError::NoMatch);
        }
        Ok(result)
    }
}

// ---------------------------------------------------------------------------
// Chains: parse short-circuits on the first host, rewrite applies them all.
// ---------------------------------------------------------------------------

/// What one middleware invocation came to, at the specification level.
pub ghost enum OutcomeView {
    /// Host (as returned, before the chain normalizes it) and rewrite bytes.
    Output(Option<Seq<char>>, Option<Seq<u8>>),
    NeedMore,
    NoMatch,
    Fatal,
}

/// What a chain parse comes to, at the specification level.
pub ghost enum ParseView {
    /// The winning host (trimmed, lowercased) and the last rewrite, if any.
    Found(Seq<char>, Option<Seq<u8>>),
    NeedMore,
    NoMatch,
}

/// The host an outcome contributes: its host output, normalized, when that
/// is non-empty.
pub open spec fn outcome_host(o: OutcomeView) -> Option<Seq<char>> {
    match o {
        OutcomeView::Output(h, _) => match h {
            Some(x) => if text::spec_trim_lower(x).len() > 0 {
                Some(text::spec_trim_lower(x))
            } else {
                None
            },
            None => None,
        },
        _ => None,
    }
}

pub open spec fn outcome_rewrite(o: OutcomeView) -> Option<Seq<u8>> {
    match o {
        OutcomeView::Output(_, rw) => rw,
        _ => None,
    }
}

/// Parse-mode chain semantics over the outcomes of the invoked middlewares:
/// the first non-empty (normalized) host wins, carrying any rewrite made so
/// far; a rewrite without a host threads forward; if no middleware yields a
/// host, the chain needs more data exactly when one of them did.
pub open spec fn spec_chain_parse_rec(
    outs: Seq<OutcomeView>,
    rewritten: Option<Seq<u8>>,
    need: bool,
) -> ParseView
    decreases outs.len(),
{
    if outs.len() == 0 {
        if need {
            ParseView::NeedMore
        } else {
            ParseView::NoMatch
        }
    } else {
        let o = outs.first();
        if o is NeedMore {
            spec_chain_parse_rec(outs.drop_first(), rewritten, true)
        } else {
            let rewritten2 = if outcome_rewrite(o) is Some {
                outcome_rewrite(o)
            } else {
                rewritten
            };
            match outcome_host(o) {
                Some(h) => ParseView::Found(h, rewritten2),
                None => spec_chain_parse_rec(outs.drop_first(), rewritten2, need),
            }
        }
    }
}

pub open spec fn spec_chain_parse(outs: Seq<OutcomeView>) -> ParseView {
    spec_chain_parse_rec(outs, None, false)
}

/// The fold state after outcomes that produced no host; `None` when a host
/// fired inside.
pub open spec fn spec_chain_state(
    outs: Seq<OutcomeView>,
    rewritten: Option<Seq<u8>>,
    need: bool,
) -> Option<(Option<Seq<u8>>, bool)>
    decreases outs.len(),
{
    if outs.len() == 0 {
        Some((rewritten, need))
    } else {
        let o = outs.first();
        if o is NeedMore {
            spec_chain_state(outs.drop_first(), rewritten, true)
        } else {
            let rewritten2 = if outcome_rewrite(o) is Some {
                outcome_rewrite(o)
            } else {
                rewritten
            };
            match outcome_host(o) {
                Some(_) => None,
                None => spec_chain_state(outs.drop_first(), rewritten2, need),
            }
        }
    }
}

/// A hostless prefix only moves the fold state forward.
proof fn lemma_chain_split(
    a: Seq<OutcomeView>,
    b: Seq<OutcomeView>,
    rewritten: Option<Seq<u8>>,
    need: bool,
)
    requires
        spec_chain_state(a, rewritten, need) is Some,
    ensures
        spec_chain_parse_rec(a + b, rewritten, need) == spec_chain_parse_rec(
            b,
            spec_chain_state(a, rewritten, need)->Some_0.0,
            spec_chain_state(a, rewritten, need)->Some_0.1,
        ),
        spec_chain_state(a + b, rewritten, need) == spec_chain_state(
            b,
            spec_chain_state(a, rewritten, need)->Some_0.0,
            spec_chain_state(a, rewritten, need)->Some_0.1,
        ),
    decreases a.len(),
{
    if a.len() == 0 {
        assert(a + b =~= b);
    } else {
        assert((a + b).first() == a.first());
        assert((a + b).drop_first() =~= a.drop_first() + b);
        let o = a.first();
        if o is NeedMore {
            lemma_chain_split(a.drop_first(), b, rewritten, true);
        } else {
            let rewritten2 = if outcome_rewrite(o) is Some {
                outcome_rewrite(o)
            } else {
                rewritten
            };
            lemma_chain_split(a.drop_first(), b, rewritten2, need);
        }
    }
}

proof fn lemma_chain_parse_law_rec(outs: Seq<OutcomeView>, rewritten: Option<Seq<u8>>, need: bool)
    ensures
        (forall|i: int| 0 <= i < outs.len() ==> outcome_host(outs[i]) is None) ==> (
        spec_chain_parse_rec(outs, rewritten, need) == (if need || exists|i: int|
            0 <= i < outs.len() && outs[i] is NeedMore {
            ParseView::NeedMore
        } else {
            ParseView::NoMatch
        })),
        forall|i: int|
            (0 <= i < outs.len() && outcome_host(outs[i]) is Some && (forall|j: int|
                0 <= j < i ==> outcome_host(#[trigger] outs[j]) is None)) ==> (
            #[trigger] outcome_host(outs[i]) matches Some(h) && spec_chain_parse_rec(
                outs,
                rewritten,
                need,
            ) matches ParseView::Found(hh, _) && hh == h),
    decreases outs.len(),
{
    if outs.len() == 0 {
        return;
    }
    let o = outs.first();
    let rest = outs.drop_first();
    assert(outs[0] == o);
    assert(forall|i: int| 1 <= i < outs.len() ==> outs[i] == #[trigger] rest[i - 1]);
    let rewritten2 = if outcome_rewrite(o) is Some {
        outcome_rewrite(o)
    } else {
        rewritten
    };
    let need2 = if o is NeedMore {
        true
    } else {
        need
    };
    if outcome_host(o) is Some {
        // the head wins: the first clause is vacuous, the second holds at 0
        assert(spec_chain_parse_rec(outs, rewritten, need) == ParseView::Found(
            outcome_host(o)->Some_0,
            rewritten2,
        ));
    } else {
        lemma_chain_parse_law_rec(rest, rewritten2, need2);
        assert(spec_chain_parse_rec(outs, rewritten, need) == spec_chain_parse_rec(
            rest,
            rewritten2,
            need2,
        ));
        if forall|i: int| 0 <= i < outs.len() ==> outcome_host(outs[i]) is None {
            assert(forall|i: int| 0 <= i < rest.len() ==> outcome_host(#[trigger] rest[i]) is None);
            if need2 || exists|i: int| 0 <= i < rest.len() && rest[i] is NeedMore {
                if need || exists|i: int| 0 <= i < outs.len() && outs[i] is NeedMore {
                } else {
                    // need2 without need means the head needed more, and a
                    // needing tail element shifts into outs
                    if !need2 {
                        let w = choose|i: int| 0 <= i < rest.len() && rest[i] is NeedMore;
                        assert(outs[w + 1] is NeedMore);
                    }
                    assert(o is NeedMore || exists|i: int|
                        0 <= i < outs.len() && outs[i] is NeedMore);
                }
            } else {
                if need || exists|i: int| 0 <= i < outs.len() && outs[i] is NeedMore {
                    let w = choose|i: int| 0 <= i < outs.len() && outs[i] is NeedMore;
                    assert(w >= 1 ==> rest[w - 1] is NeedMore);
                    assert(false);
                }
            }
        }
        assert forall|i: int|
            (0 <= i < outs.len() && outcome_host(outs[i]) is Some && (forall|j: int|
                0 <= j < i ==> outcome_host(#[trigger] outs[j]) is None)) implies (
            #[trigger] outcome_host(outs[i]) matches Some(h) && spec_chain_parse_rec(
                outs,
                rewritten,
                need,
            ) matches ParseView::Found(hh, _) && hh == h) by {
            assert(i >= 1);
            assert(outcome_host(rest[i - 1]) is Some);
            assert(forall|j: int| 0 <= j < i - 1 ==> outcome_host(#[trigger] rest[j]) is None);
        }
    }
}

/// The chain-parse law: the first middleware whose (normalized) host is
/// non-empty decides the chain's host; if none yields a host, the chain
/// needs more data exactly when some middleware did, and reports no-match
/// otherwise.
pub proof fn lemma_chain_parse_law(outs: Seq<OutcomeView>)
    ensures
        (forall|i: int| 0 <= i < outs.len() ==> outcome_host(outs[i]) is None) ==> (
        spec_chain_parse(outs) == (if exists|i: int| 0 <= i < outs.len() && outs[i] is NeedMore {
            ParseView::NeedMore
        } else {
            ParseView::NoMatch
        })),
        forall|i: int|
            (0 <= i < outs.len() && outcome_host(outs[i]) is Some && (forall|j: int|
                0 <= j < i ==> outcome_host(#[trigger] outs[j]) is None)) ==> (
            #[trigger] outcome_host(outs[i]) matches Some(h) && spec_chain_parse(
                outs,
            ) matches ParseView::Found(hh, _) && hh == h),
{
    lemma_chain_parse_law_rec(outs, None, false);
}

/// Rewrite-mode chain semantics: every middleware runs, each rewrite
/// replaces the working buffer, errors are ignored; the flag says whether
/// anything changed.
pub open spec fn spec_chain_rewrite_rec(
    outs: Seq<OutcomeView>,
    cur: Seq<u8>,
    changed: bool,
) -> (Seq<u8>, bool)
    decreases outs.len(),
{
    if outs.len() == 0 {
        (cur, changed)
    } else {
        match outcome_rewrite(outs.first()) {
            Some(rw) => spec_chain_rewrite_rec(outs.drop_first(), rw, true),
            None => spec_chain_rewrite_rec(outs.drop_first(), cur, changed),
        }
    }
}

proof fn lemma_chain_rewrite_split(a: Seq<OutcomeView>, b: Seq<OutcomeView>, cur: Seq<u8>, changed: bool)
    ensures
        spec_chain_rewrite_rec(a + b, cur, changed) == spec_chain_rewrite_rec(
            b,
            spec_chain_rewrite_rec(a, cur, changed).0,
            spec_chain_rewrite_rec(a, cur, changed).1,
        ),
    decreases a.len(),
{
    if a.len() == 0 {
        assert(a + b =~= b);
    } else {
        assert((a + b).first() == a.first());
        assert((a + b).drop_first() =~= a.drop_first() + b);
        match outcome_rewrite(a.first()) {
            Some(rw) => lemma_chain_rewrite_split(a.drop_first(), b, rw, true),
            None => lemma_chain_rewrite_split(a.drop_first(), b, cur, changed),
        }
    }
}


/// Spec view of an optional byte buffer.
pub open spec fn opt_bytes_view(o: Option<Vec<u8>>) -> Option<Seq<u8>> {
    match o {
        Some(v) => Some(v@),
        None => None,
    }
}

/// Spec view of an optional string.
pub open spec fn opt_str_view(o: Option<String>) -> Option<Seq<char>> {
    match o {
        Some(s) => Some(s@),
        None => None,
    }
}

/// The ghost mirror of a parse result.
pub open spec fn parse_result_view(
    r: Result<(String, Option<Vec<u8>>), MiddlewareError>,
) -> ParseView {
    match r {
        Ok((h, rw)) => ParseView::Found(h@, opt_bytes_view(rw)),
        Err(MiddlewareError::NeedMoreData) => ParseView::NeedMore,
        Err(MiddlewareError::NoMatch) => ParseView::NoMatch,
        Err(MiddlewareError::Fatal(_)) => ParseView::NoMatch,
    }
}

/// An ordered chain of middlewares sharing one prelude.
pub struct ChainMiddleware {
    pub middlewares: Vec<WasmMiddleware>,
}

/// The input middlewares whose names do not trim empty, in order.
pub open spec fn spec_kept_middlewares(s: Seq<WasmMiddleware>) -> Seq<WasmMiddleware>
    decreases s.len(),
{
    if s.len() == 0 {
        Seq::empty()
    } else {
        let rest = spec_kept_middlewares(s.drop_first());
        if text::spec_trim(s.first().name@).len() == 0 {
            rest
        } else {
            seq![s.first()] + rest
        }
    }
}

impl ChainMiddleware {
    /// Builds a chain: exactly the input middlewares whose names do not
    /// trim empty, in the input order.
    pub fn new(middlewares: Vec<WasmMiddleware>) -> (r: ChainMiddleware)
        ensures
            r.middlewares@ == spec_kept_middlewares(middlewares@),
    {
        let mut kept: Vec<WasmMiddleware> = Vec::new();
        let mut rest = middlewares;
        let ghost all = rest@;
        proof {
            assert(kept@ + spec_kept_middlewares(rest@) =~= spec_kept_middlewares(all));
        }
        while rest.len() != 0
            invariant
                kept@ + spec_kept_middlewares(rest@) == spec_kept_middlewares(all),
            decreases rest@.len(),
        {
            let ghost pre = rest@;
            let m = rest.remove(0);
            proof {
                assert(pre.first() == m);
                assert(pre.drop_first() =~= rest@);
            }
            let ghost kept_pre = kept@;
            let t = text::trim_str(m.name.as_str());
            if t.as_str().unicode_len() > 0 {
                kept.push(m);
                proof {
                    assert(kept@ =~= kept_pre.push(pre.first()));
                    assert(kept_pre + (seq![pre.first()] + spec_kept_middlewares(
                        pre.drop_first(),
                    )) =~= kept@ + spec_kept_middlewares(pre.drop_first()));
                }
            }
        }
        proof {
            assert(kept@ + spec_kept_middlewares(rest@) =~= kept@);
        }
        ChainMiddleware { middlewares: kept }
    }

    /// The chain's own name.
    pub fn name(&self) -> (r: &'static str)
        ensures
            r@ == "chain"@,
    {
        "chain"
    }

    /// Applies the chain in parse mode: the first non-empty host wins,
    /// rewrites thread forward, fatal middleware errors degrade to no-match
    /// so sibling middlewares can still win. The result is the chain-parse
    /// combination of what the invoked middlewares returned.
    pub fn parse(&self, prelude: &Vec<u8>) -> (r: Result<
        (String, Option<Vec<u8>>),
        MiddlewareError,
    >)
        ensures
            !(r matches Err(MiddlewareError::Fatal(_))),
            r matches Ok((h, rw)) ==> h@.len() > 0 && h@ == text::spec_trim_lower(h@),
            exists|outs: Seq<OutcomeView>|
                outs.len() <= self.middlewares@.len() && parse_result_view(r)
                    == #[trigger] spec_chain_parse(outs),
    {
        let ctx = MiddlewareCtx::parse();
        let mut current = crate::wire::copy_bytes(prelude, 0, prelude.len());
        let mut rewritten: Option<Vec<u8>> = None;
        let mut need = false;
        let ghost mut outs: Seq<OutcomeView> = Seq::empty();
        let n = self.middlewares.len();
        let mut i: usize = 0;
        while i < n
            invariant
                n == self.middlewares@.len(),
                0 <= i <= n,
                outs.len() == i,
                spec_chain_state(outs, None, false) == Some((opt_bytes_view(rewritten), need)),
            decreases n - i,
        {
            let ghost state_pre: (Option<Seq<u8>>, bool) = (opt_bytes_view(rewritten), need);
            match self.middlewares[i].apply(&current, &ctx) {
                Ok(out) => {
                    let ghost o = OutcomeView::Output(opt_str_view(out.host), opt_bytes_view(out.rewrite));
                    if let Some(rw) = out.rewrite {
                        current = rw;
                        rewritten = Some(crate::wire::copy_bytes(&current, 0, current.len()));
                        proof {
                            assert(current@.subrange(0, current@.len() as int) =~= current@);
                        }
                    }
                    if let Some(host) = out.host {
                        let h = text::trim_lower_str(host.as_str());
                        if h.as_str().unicode_len() > 0 {
                            proof {
                                reveal_with_fuel(spec_chain_parse_rec, 3);
                                reveal_with_fuel(spec_chain_state, 3);
                                text::lemma_trim_lower_idempotent(host@);
                                lemma_chain_split(outs, seq![o], None, false);
                                assert(outs.push(o) =~= outs + seq![o]);
                                assert(seq![o].drop_first() =~= Seq::<OutcomeView>::empty());
                                assert(spec_chain_parse(outs.push(o)) == ParseView::Found(
                                    h@,
                                    opt_bytes_view(rewritten),
                                ));
                                assert(outs.push(o).len() <= self.middlewares@.len());
                            }
                            return Ok((h, rewritten));
                        }
                        proof {
                            reveal_with_fuel(spec_chain_state, 3);
                            lemma_chain_split(outs, seq![o], None, false);
                            assert(outs.push(o) =~= outs + seq![o]);
                            assert(seq![o].drop_first() =~= Seq::<OutcomeView>::empty());
                            outs = outs.push(o);
                        }
                    } else {
                        proof {
                            reveal_with_fuel(spec_chain_state, 3);
                            lemma_chain_split(outs, seq![o], None, false);
                            assert(outs.push(o) =~= outs + seq![o]);
                            assert(seq![o].drop_first() =~= Seq::<OutcomeView>::empty());
                            outs = outs.push(o);
                        }
                    }
                },
                Err(MiddlewareError::NeedMoreData) => {
                    need = true;
                    proof {
                        reveal_with_fuel(spec_chain_state, 3);
                        lemma_chain_split(outs, seq![OutcomeView::NeedMore], None, false);
                        assert(outs.push(OutcomeView::NeedMore) =~= outs + seq![
                            OutcomeView::NeedMore,
                        ]);
                        assert(seq![OutcomeView::NeedMore].drop_first() =~= Seq::<
                            OutcomeView,
                        >::empty());
                        outs = outs.push(OutcomeView::NeedMore);
                    }
                },
                Err(MiddlewareError::NoMatch) => {
                    proof {
                        reveal_with_fuel(spec_chain_state, 3);
                        lemma_chain_split(outs, seq![OutcomeView::NoMatch], None, false);
                        assert(outs.push(OutcomeView::NoMatch) =~= outs + seq![
                            OutcomeView::NoMatch,
                        ]);
                        assert(seq![OutcomeView::NoMatch].drop_first() =~= Seq::<
                            OutcomeView,
                        >::empty());
                        outs = outs.push(OutcomeView::NoMatch);
                    }
                },
                Err(MiddlewareError::Fatal(_)) => {
                    proof {
                        reveal_with_fuel(spec_chain_state, 3);
                        lemma_chain_split(outs, seq![OutcomeView::Fatal], None, false);
                        assert(outs.push(OutcomeView::Fatal) =~= outs + seq![OutcomeView::Fatal]);
                        assert(seq![OutcomeView::Fatal].drop_first() =~= Seq::<
                            OutcomeView,
                        >::empty());
                        outs = outs.push(OutcomeView::Fatal);
                    }
                },
            }
            i = i + 1;
        }
        proof {
            lemma_chain_split(outs, Seq::empty(), None, false);
            assert(outs + Seq::<OutcomeView>::empty() =~= outs);
            assert(spec_chain_parse(outs) == (if need {
                ParseView::NeedMore
            } else {
                ParseView::NoMatch
            }));
        }
        if need {
            Err(MiddlewareError::NeedMoreData)
        } else {
            Err(MiddlewareError::NoMatch)
        }
    }

    /// Applies the chain in rewrite mode: every middleware runs in order on
    /// the working buffer, each rewrite replaces it, errors are ignored.
    /// `Some` exactly when any middleware rewrote.
    pub fn rewrite(&self, prelude: &Vec<u8>, selected_upstream: &str) -> (r: Option<Vec<u8>>)
        ensures
            exists|outs: Seq<OutcomeView>|
                outs.len() == self.middlewares@.len() && ({
                    let folded = #[trigger] spec_chain_rewrite_rec(outs, prelude@, false);
                    match r {
                        Some(v) => folded.1 && v@ == folded.0,
                        None => !folded.1,
                    }
                }),
    {
        let ctx = MiddlewareCtx::rewrite(selected_upstream);
        let mut current = crate::wire::copy_bytes(prelude, 0, prelude.len());
        let mut changed = false;
        let ghost mut outs: Seq<OutcomeView> = Seq::empty();
        proof {
            assert(prelude@.subrange(0, prelude@.len() as int) =~= prelude@);
        }
        let n = self.middlewares.len();
        let mut i: usize = 0;
        while i < n
            invariant
                n == self.middlewares@.len(),
                0 <= i <= n,
                outs.len() == i,
                spec_chain_rewrite_rec(outs, prelude@, false) == (current@, changed),
            decreases n - i,
        {
            match self.middlewares[i].apply(&current, &ctx) {
                Ok(out) => {
                    let ghost o = OutcomeView::Output(opt_str_view(out.host), opt_bytes_view(out.rewrite));
                    proof {
                        reveal_with_fuel(spec_chain_rewrite_rec, 3);
                        lemma_chain_rewrite_split(outs, seq![o], prelude@, false);
                        assert(outs.push(o) =~= outs + seq![o]);
                        assert(seq![o].drop_first() =~= Seq::<OutcomeView>::empty());
                        outs = outs.push(o);
                    }
                    if let Some(rw) = out.rewrite {
                        current = rw;
                        changed = true;
                    }
                },
                Err(e) => {
                    let ghost o = match e {
                        MiddlewareError::NeedMoreData => OutcomeView::NeedMore,
                        MiddlewareError::NoMatch => OutcomeView::NoMatch,
                        MiddlewareError::Fatal(_) => OutcomeView::Fatal,
                    };
                    proof {
                        reveal_with_fuel(spec_chain_rewrite_rec, 3);
                        lemma_chain_rewrite_split(outs, seq![o], prelude@, false);
                        assert(outs.push(o) =~= outs + seq![o]);
                        assert(seq![o].drop_first() =~= Seq::<OutcomeView>::empty());
                        outs = outs.push(o);
                    }
                },
            }
            i = i + 1;
        }
        if changed {
            Some(current)
        } else {
            None
        }
    }
}

/// The normal form of a middleware name: trimmed, lowercased, `-` turned
/// into `_`.
pub open spec fn spec_builtin_name(s: Seq<char>) -> Seq<char> {
    text::spec_trim_lower(s).map_values(|c: char| if c == '-' { '_' } else { c })
}

/// Normalizes a middleware name.
pub fn normalize_builtin_name(name: &str) -> (r: String)
    ensures
        r@ == spec_builtin_name(name@),
{
    let t = text::trim_lower_str(name);
    let chars = crate::pattern::str_to_chars(t.as_str());
    let mut out = String::new();
    let n = chars.len();
    let mut i: usize = 0;
    while i < n
        invariant
            i <= n == chars@.len(),
            out@ == chars@.subrange(0, i as int).map_values(
                |c: char| if c == '-' { '_' } else { c },
            ),
        decreases n - i,
    {
        let c = chars[i];
        text::push_char(&mut out, if c == '-' { '_' } else { c });
        proof {
            assert(out@ =~= chars@.subrange(0, i as int + 1).map_values(
                |c: char| if c == '-' { '_' } else { c },
            ));
        }
        i = i + 1;
    }
    proof {
        assert(chars@.subrange(0, n as int) =~= chars@);
    }
    out
}

/// Whether a middleware name is acceptable: non-empty, and free of path
/// separators and dots, so it can only name a file directly in the
/// middleware directory.
pub open spec fn spec_valid_name(s: Seq<char>) -> bool {
    s.len() > 0 && forall|k: int| 0 <= k < s.len() ==> s[k] != '/' && s[k] != '\\' && s[k] != '.'
}

/// Checks a normalized middleware name.
pub fn valid_middleware_name(name: &str) -> (r: bool)
    ensures
        r == spec_valid_name(name@),
{
    let chars = crate::pattern::str_to_chars(name);
    if chars.len() == 0 {
        return false;
    }
    let n = chars.len();
    let mut i: usize = 0;
    while i < n
        invariant
            i <= n == chars@.len(),
            chars@ == name@,
            forall|k: int| 0 <= k < i ==> chars@[k] != '/' && chars@[k] != '\\' && chars@[k]
                != '.',
        decreases n - i,
    {
        let c = chars[i];
        if c == '/' || c == '\\' || c == '.' {
            return false;
        }
        i = i + 1;
    }
    true
}

/// One entry per name in a provider cache.
pub open spec fn provider_unique_names(cache: Seq<WasmMiddleware>) -> bool {
    forall|i: int, j: int|
        0 <= i < j < cache.len() ==> (#[trigger] cache[i]).name@ != (#[trigger] cache[j]).name@
}

proof fn lemma_skip_dash_map(s: Seq<char>, i: int)
    requires
        0 <= i <= s.len(),
    ensures
        text::skip_spaces(s.map_values(|c: char| if c == '-' { '_' } else { c }), i)
            == text::skip_spaces(s, i),
    decreases s.len() - i,
{
    let m = s.map_values(|c: char| if c == '-' { '_' } else { c });
    if i < s.len() {
        assert(m[i] == (if s[i] == '-' { '_' } else { s[i] }));
        assert(text::is_ascii_space(m[i]) == text::is_ascii_space(s[i]));
        if text::is_ascii_space(s[i]) {
            lemma_skip_dash_map(s, i + 1);
        }
    }
}

proof fn lemma_rskip_dash_map(s: Seq<char>, j: int)
    requires
        0 <= j <= s.len(),
    ensures
        text::rskip_spaces(s.map_values(|c: char| if c == '-' { '_' } else { c }), j)
            == text::rskip_spaces(s, j),
    decreases j,
{
    let m = s.map_values(|c: char| if c == '-' { '_' } else { c });
    if j > 0 {
        assert(m[j - 1] == (if s[j - 1] == '-' { '_' } else { s[j - 1] }));
        assert(text::is_ascii_space(m[j - 1]) == text::is_ascii_space(s[j - 1]));
        if text::is_ascii_space(s[j - 1]) {
            lemma_rskip_dash_map(s, j - 1);
        }
    }
}

/// A normalized middleware name is already trimmed.
proof fn lemma_builtin_name_trimmed(s: Seq<char>)
    ensures
        text::spec_trim(spec_builtin_name(s)) == spec_builtin_name(s),
{
    let u = text::spec_trim_lower(s);
    let v = spec_builtin_name(s);
    // the trim-lowered string is already trimmed
    text::lemma_trim_idempotent(s);
    text::lemma_trim_lower_commute(text::spec_trim(s));
    assert(text::spec_trim(u) == u);
    // so its trim window is the whole string
    text::lemma_skip_spaces_at(u, 0);
    text::lemma_rskip_spaces_at(u, u.len() as int);
    if u.len() == 0 {
        assert(v =~= Seq::<char>::empty());
        assert(text::spec_trim(v) =~= v);
    } else {
        let lo = text::skip_spaces(u, 0);
        let hi = text::rskip_spaces(u, u.len() as int);
        assert(lo == 0 && hi == u.len()) by {
            if lo >= hi {
                assert(text::spec_trim(u).len() == 0);
            } else {
                assert(text::spec_trim(u).len() == hi - lo);
            }
        }
        // the dash map moves no whitespace, so the window carries over
        lemma_skip_dash_map(u, 0);
        lemma_rskip_dash_map(u, u.len() as int);
        assert(text::spec_trim(v) =~= v);
    }
}

/// Loads middlewares by name and keeps one compiled module per name. The
/// application reads `<dir>/<name>.wat` and hands the bytes in; names are
/// normalized and validated here.
pub struct FsWasmMiddlewareProvider {
    pub dir: String,
    pub cache: Vec<WasmMiddleware>,
}

impl FsWasmMiddlewareProvider {
    /// An empty cache over this directory.
    pub fn new(dir: String) -> (r: FsWasmMiddlewareProvider)
        ensures
            r.dir == dir,
            r.cache@.len() == 0,
    {
        FsWasmMiddlewareProvider { dir, cache: Vec::new() }
    }

    /// The file the (normalized) name refers to: `<dir>/<name>.wat`.
    pub fn wat_path_for(&self, name: &str) -> (r: String)
        ensures
            r@ == self.dir@ + seq!['/'] + spec_builtin_name(name@) + ".wat"@,
    {
        let n = normalize_builtin_name(name);
        let mut out = String::new();
        out.append(self.dir.as_str());
        text::push_char(&mut out, '/');
        out.append(n.as_str());
        out.append(".wat");
        proof {
            assert(out@ =~= self.dir@ + seq!['/'] + spec_builtin_name(name@) + ".wat"@);
        }
        out
    }

    /// The cached middleware of this name, if any.
    pub fn cached(&self, name: &str) -> (r: Option<usize>)
        ensures
            r matches Some(i) ==> i < self.cache@.len() && self.cache@[i as int].name@ == name@,
            r is None ==> forall|k: int|
                0 <= k < self.cache@.len() ==> (#[trigger] self.cache@[k]).name@ != name@,
    {
        let n = self.cache.len();
        let mut i: usize = 0;
        while i < n
            invariant
                i <= n == self.cache@.len(),
                forall|k: int| 0 <= k < i ==> (#[trigger] self.cache@[k]).name@ != name@,
            decreases n - i,
        {
            if text::str_eq(self.cache[i].name.as_str(), name) {
                return Some(i);
            }
            i = i + 1;
        }
        None
    }

    /// Resolves a name to a compiled middleware: an invalid normalized
    /// name is rejected; a cached module of that name is reused, so there
    /// is one compiled module per name; otherwise the WAT bytes the
    /// application read are compiled and cached.
    pub fn load(&mut self, name: &str, wat: &Vec<u8>) -> (r: Result<usize, String>)
        requires
            provider_unique_names(old(self).cache@),
        ensures
            provider_unique_names(final(self).cache@),
            final(self).dir == old(self).dir,
            !spec_valid_name(spec_builtin_name(name@)) ==> r is Err,
            r is Err ==> *final(self) == *old(self),
            forall|k: int|
                0 <= k < old(self).cache@.len() ==> #[trigger] final(self).cache@[k] == old(
                    self,
                ).cache@[k],
            final(self).cache@.len() <= old(self).cache@.len() + 1,
            r matches Ok(i) ==> i < final(self).cache@.len() && final(self).cache@[
                i as int].name@ == spec_builtin_name(name@),
    {
        let normalized = normalize_builtin_name(name);
        if !valid_middleware_name(normalized.as_str()) {
            return Err(String::from_str("middleware: invalid middleware name"));
        }
        match self.cached(normalized.as_str()) {
            Some(i) => Ok(i),
            None => {
                match WasmMiddleware::from_wat(normalized.as_str(), wat) {
                    Ok(m) => {
                        proof {
                            text::lemma_trim_idempotent(spec_builtin_name(name@));
                            lemma_builtin_name_trimmed(name@);
                        }
                        self.cache.push(m);
                        proof {
                            assert(self.cache@[self.cache@.len() - 1].name@ == spec_builtin_name(
                                name@,
                            ));
                        }
                        Ok(self.cache.len() - 1)
                    },
                    Err(e) => Err(e),
                }
            },
        }
    }

    /// A reference to a cached middleware.
    pub fn at(&self, i: usize) -> (r: &WasmMiddleware)
        requires
            i < self.cache@.len(),
    {
        &self.cache[i]
    }
}

} // verus!
