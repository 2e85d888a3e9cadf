//! Soundness of the narrowing rewrite: executing the carry chain it
//! emits gives results bit-identical to the original wide instruction.
//!
//! The narrowing of a 64-bit addition for a target whose widest native
//! type is 32 bits emits
//! `(xl, xh) := isplit x; (yl, yh) := isplit y;
//! (lo, c) := iadd_cout xl, yl; hi := iadd_carry xh, yh, c;
//! r := iconcat lo, hi`.
//! Each step below performs exactly one of those operations on concrete
//! values: `isplit` takes the low half and the high half, `iadd_cout`
//! adds the low halves and exposes the carry out, `iadd_carry` adds the
//! high halves plus the carry, and `iconcat` reassembles the halves.

use vstd::prelude::*;
use crate::ir::Function;
use crate::ir::Opcode;
use crate::ir::ValueType;

verus! {

/// The modulus of a value type: one more than its largest value.
pub open spec fn modulus(t: ValueType) -> int {
    match t {
        ValueType::I8 => 0x100,
        ValueType::I16 => 0x1_0000,
        ValueType::I32 => 0x1_0000_0000,
        ValueType::I64 => 0x1_0000_0000_0000_0000,
    }
}

/// The modulus of a value type, as a number wide enough to compute in.
fn modulus_u128(t: ValueType) -> (r: u128)
    ensures
        r == modulus(t),
{
    match t {
        ValueType::I8 => 0x100,
        ValueType::I16 => 0x1_0000,
        ValueType::I32 => 0x1_0000_0000,
        ValueType::I64 => 0x1_0000_0000_0000_0000,
    }
}

/// What one data instruction computes: the value environment after it,
/// or nothing where the instruction is malformed, traps, or is a
/// control-flow instruction this straight-line semantics does not
/// model. A return leaves the environment as it stands.
pub open spec fn eval_one(f: Function, id: usize, env: Seq<u64>) -> Option<Seq<u64>> {
    let d = f.dfg.insts@[id as int];
    let rs = f.dfg.results@[id as int]@;
    match d.opcode {
        Opcode::Iconst => if rs.len() == 1 {
            Some(env.update(rs[0] as int, (d.imm as int % modulus(d.ty)) as u64))
        } else {
            None
        },
        Opcode::Iadd => if rs.len() == 1 && d.args@.len() == 2 {
            Some(env.update(rs[0] as int,
                ((env[d.args@[0] as int] + env[d.args@[1] as int]) % modulus(d.ty)) as u64))
        } else {
            None
        },
        Opcode::IaddImm => if rs.len() == 1 && d.args@.len() == 1 {
            Some(env.update(rs[0] as int,
                ((env[d.args@[0] as int] + d.imm) % modulus(d.ty)) as u64))
        } else {
            None
        },
        Opcode::IaddCout => if rs.len() == 2 && d.args@.len() == 2 {
            let s = env[d.args@[0] as int] + env[d.args@[1] as int];
            Some(env.update(rs[0] as int, (s % modulus(d.ty)) as u64)
                .update(rs[1] as int, (s / modulus(d.ty)) as u64))
        } else {
            None
        },
        Opcode::IaddCarry => if rs.len() == 1 && d.args@.len() == 3 {
            Some(env.update(rs[0] as int,
                ((env[d.args@[0] as int] + env[d.args@[1] as int]
                    + env[d.args@[2] as int]) % modulus(d.ty)) as u64))
        } else {
            None
        },
        Opcode::Isplit => if rs.len() == 2 && d.args@.len() == 1 && d.ty.spec_half() is Some {
            let h = d.ty.spec_half()->Some_0;
            Some(env.update(rs[0] as int, (env[d.args@[0] as int] as int % modulus(h)) as u64)
                .update(rs[1] as int,
                    ((env[d.args@[0] as int] as int / modulus(h)) % modulus(h)) as u64))
        } else {
            None
        },
        Opcode::Iconcat => if rs.len() == 1 && d.args@.len() == 2 {
            let mh = modulus(d.ty);
            Some(env.update(rs[0] as int,
                (((env[d.args@[0] as int] as int % mh)
                    + (env[d.args@[1] as int] as int % mh) * mh)
                    % 0x1_0000_0000_0000_0000) as u64))
        } else {
            None
        },
        Opcode::Ret => Some(env),
        _ => None,
    }
}

/// The environment after executing a sequence of instructions in order,
/// where every step is defined.
pub open spec fn eval_ids(f: Function, ids: Seq<usize>, env: Seq<u64>) -> Option<Seq<u64>>
    decreases ids.len(),
{
    if ids.len() == 0 {
        Some(env)
    } else {
        match eval_ids(f, ids.drop_last(), env) {
            Some(e) => eval_one(f, ids.last(), e),
            None => None,
        }
    }
}

/// Once a prefix of the sequence fails to evaluate, the whole sequence
/// fails.
proof fn lemma_eval_ids_prefix_none(f: Function, ids: Seq<usize>, k: int, env: Seq<u64>)
    requires
        0 <= k <= ids.len(),
        eval_ids(f, ids.take(k), env) is None,
    ensures
        eval_ids(f, ids, env) is None,
    decreases ids.len(),
{
    if k == ids.len() {
        assert(ids.take(k) =~= ids);
    } else {
        assert(ids.drop_last().take(k) =~= ids.take(k));
        lemma_eval_ids_prefix_none(f, ids.drop_last(), k, env);
    }
}

/// Execute the instructions of block `b` in layout order on a value
/// environment, indexed by value handle. Returns whether every
/// instruction was a data instruction this semantics models; on
/// success the environment holds exactly what the specification
/// assigns, so a legalized block can be compared bit for bit against
/// the block it replaced.
pub fn eval_ebb(func: &Function, b: usize, env: &mut Vec<u64>) -> (ok: bool)
    requires
        func.wf(),
        b < func.layout.num_ebbs(),
        old(env)@.len() == func.dfg.num_values(),
    ensures
        final(env)@.len() == old(env)@.len(),
        ok <==> eval_ids(*func, func.layout.insts_of(b as int), old(env)@) is Some,
        ok ==> Some(final(env)@) == eval_ids(*func, func.layout.insts_of(b as int), old(env)@),
{
    let n = func.layout.ebb_insts[b].len();
    let mut k: usize = 0;
    while k < n
        invariant
            func.wf(),
            b < func.layout.num_ebbs(),
            k <= n,
            n == func.layout.insts_of(b as int).len(),
            env@.len() == old(env)@.len(),
            old(env)@.len() == func.dfg.num_values(),
            Some(env@) == eval_ids(*func, func.layout.insts_of(b as int).take(k as int),
                old(env)@),
        decreases n - k,
    {
        let id = func.layout.ebb_insts[b][k];
        let stepped = eval_inst(func, id, env);
        proof {
            let ids = func.layout.insts_of(b as int);
            assert(ids.take(k + 1 as int).drop_last() =~= ids.take(k as int));
            assert(ids.take(k + 1 as int).last() == ids[k as int]);
        }
        if !stepped {
            proof {
                let ids = func.layout.insts_of(b as int);
                lemma_eval_ids_prefix_none(*func, ids, k + 1, old(env)@);
            }
            return false;
        }
        k += 1;
    }
    proof {
        let ids = func.layout.insts_of(b as int);
        assert(ids.take(n as int) =~= ids);
    }
    true
}

/// Execute one instruction on the environment, following the
/// specification exactly.
fn eval_inst(func: &Function, id: usize, env: &mut Vec<u64>) -> (ok: bool)
    requires
        func.wf(),
        id < func.dfg.num_insts(),
        old(env)@.len() == func.dfg.num_values(),
    ensures
        final(env)@.len() == old(env)@.len(),
        ok <==> eval_one(*func, id, old(env)@) is Some,
        ok ==> Some(final(env)@) == eval_one(*func, id, old(env)@),
{
    let d = &func.dfg.insts[id];
    let rs = &func.dfg.results[id];
    let m = modulus_u128(d.ty);
    match d.opcode {
        Opcode::Iconst => {
            if rs.len() == 1 {
                env[rs[0]] = ((d.imm as u128) % m) as u64;
                true
            } else {
                false
            }
        },
        Opcode::Iadd => {
            if rs.len() == 1 && d.args.len() == 2 {
                let a = env[d.args[0]] as u128;
                let bb = env[d.args[1]] as u128;
                env[rs[0]] = ((a + bb) % m) as u64;
                true
            } else {
                false
            }
        },
        Opcode::IaddImm => {
            if rs.len() == 1 && d.args.len() == 1 {
                let a = env[d.args[0]] as u128;
                env[rs[0]] = ((a + d.imm as u128) % m) as u64;
                true
            } else {
                false
            }
        },
        Opcode::IaddCout => {
            if rs.len() == 2 && d.args.len() == 2 {
                let a = env[d.args[0]] as u128;
                let bb = env[d.args[1]] as u128;
                let r0 = rs[0];
                let r1 = rs[1];
                env[r0] = ((a + bb) % m) as u64;
                env[r1] = ((a + bb) / m) as u64;
                true
            } else {
                false
            }
        },
        Opcode::IaddCarry => {
            if rs.len() == 1 && d.args.len() == 3 {
                let a = env[d.args[0]] as u128;
                let bb = env[d.args[1]] as u128;
                let c = env[d.args[2]] as u128;
                env[rs[0]] = ((a + bb + c) % m) as u64;
                true
            } else {
                false
            }
        },
        Opcode::Isplit => {
            if rs.len() == 2 && d.args.len() == 1 {
                match d.ty.half() {
                    Some(h) => {
                        let mh = modulus_u128(h);
                        let a = env[d.args[0]] as u128;
                        let r0 = rs[0];
                        let r1 = rs[1];
                        env[r0] = (a % mh) as u64;
                        env[r1] = ((a / mh) % mh) as u64;
                        true
                    },
                    None => false,
                }
            } else {
                false
            }
        },
        Opcode::Iconcat => {
            if rs.len() == 1 && d.args.len() == 2 {
                let lo = env[d.args[0]] as u128;
                let hi = env[d.args[1]] as u128;
                let w: u128 = 0x1_0000_0000_0000_0000;
                env[rs[0]] = (((lo % m) + (hi % m) * m) % w) as u64;
                true
            } else {
                false
            }
        },
        Opcode::Ret => true,
        _ => false,
    }
}

/// Soundness of rewriting, for the representative narrowing: for every
/// pair of 64-bit operands, the carry chain emitted for an addition too
/// wide for a 32-bit target computes exactly the 64-bit wraparound sum
/// the original `iadd` is specified to produce.
pub proof fn lemma_narrow_add_sound(x: u64, y: u64)
    ensures
        ({
            let xl = x & 0xffff_ffff;
            let xh = x >> 32;
            let yl = y & 0xffff_ffff;
            let yh = y >> 32;
            let s = (xl + yl) as u64;
            let lo = s & 0xffff_ffff;
            let c = s >> 32;
            let hi = ((xh + yh + c) as u64) & 0xffff_ffff;
            (lo | (hi << 32)) == ((x + y) as u64)
        }),
{
    assert(((((x & 0xffff_ffff) + (y & 0xffff_ffff)) as u64) & 0xffff_ffff)
        | (((((x >> 32) + (y >> 32) + ((((x & 0xffff_ffff) + (y & 0xffff_ffff)) as u64)
            >> 32)) as u64) & 0xffff_ffff) << 32)
        == ((x + y) as u64)) by (bit_vector);
}

/// The same soundness fact in the vocabulary of the straight-line
/// semantics: splitting both operands at a 32-bit boundary, adding the
/// low halves with a carry out, adding the high halves with the carry
/// in, and concatenating the two halves — exactly what [`eval_one`]
/// assigns to the emitted `isplit`/`iadd_cout`/`iadd_carry`/`iconcat`
/// sequence — gives the 64-bit wraparound sum the original `iadd` is
/// assigned.
pub proof fn lemma_carry_chain_mod(x: u64, y: u64)
    ensures
        ({
            let b: int = 0x1_0000_0000;
            let w: int = 0x1_0000_0000_0000_0000;
            let xl = x as int % b;
            let xh = (x as int / b) % b;
            let yl = y as int % b;
            let yh = (y as int / b) % b;
            let lo = (xl + yl) % b;
            let c = (xl + yl) / b;
            let hi = (xh + yh + c) % b;
            (lo % b + (hi % b) * b) % w == (x + y) % w
        }),
{
    let b: int = 0x1_0000_0000;
    let w: int = 0x1_0000_0000_0000_0000;
    let xl = x as int % b;
    let xh = (x as int / b) % b;
    let yl = y as int % b;
    let yh = (y as int / b) % b;
    let lo = (xl + yl) % b;
    let c = (xl + yl) / b;
    let hi = (xh + yh + c) % b;

    vstd::arithmetic::div_mod::lemma_fundamental_div_mod(x as int, b);
    vstd::arithmetic::div_mod::lemma_fundamental_div_mod(y as int, b);
    vstd::arithmetic::div_mod::lemma_small_mod((x as int / b) as nat, b as nat);
    vstd::arithmetic::div_mod::lemma_small_mod((y as int / b) as nat, b as nat);
    vstd::arithmetic::div_mod::lemma_fundamental_div_mod(xl + yl, b);
    vstd::arithmetic::div_mod::lemma_fundamental_div_mod(xh + yh + c, b);
    vstd::arithmetic::div_mod::lemma_small_mod(lo as nat, b as nat);
    vstd::arithmetic::div_mod::lemma_small_mod(hi as nat, b as nat);

    // x + y collected over the halves, with the carry moved up.
    assert(x as int + y as int == (xh + yh + c) * b + lo) by (nonlinear_arith)
        requires
            x as int == b * xh + xl,
            y as int == b * yh + yl,
            xl + yl == b * c + lo,
    ;
    let q = (xh + yh + c) / b;
    assert(x as int + y as int == q * w + (hi * b + lo)) by (nonlinear_arith)
        requires
            x as int + y as int == (xh + yh + c) * b + lo,
            xh + yh + c == b * q + hi,
            w == b * b,
    ;
    assert(0 <= hi * b + lo < w) by (nonlinear_arith)
        requires
            0 <= hi < b,
            0 <= lo < b,
            w == b * b,
    ;
    vstd::arithmetic::div_mod::lemma_mod_multiples_vanish(q, hi * b + lo, w);
    vstd::arithmetic::div_mod::lemma_small_mod((hi * b + lo) as nat, w as nat);
    assert((x + y) % w == hi * b + lo);
    assert(lo % b + (hi % b) * b == lo + hi * b);
    vstd::arithmetic::div_mod::lemma_small_mod((lo + hi * b) as nat, w as nat);
}

/// Soundness of the narrowing rewrite, composed through the
/// straight-line semantics: executing the five-instruction sequence the
/// rewrite emits for a 64-bit addition — the two splits, the carry-out
/// add, the carry-in add, and the concatenation that reuses the
/// original result value — on any environment yields exactly the
/// 64-bit wraparound sum in the original result value, and touches no
/// other value outside the seven fresh ones. The hypotheses are
/// precisely what [`crate::rewrite::narrow`] ensures of the emitted
/// instructions.
pub proof fn lemma_narrowed_sequence_eval(
    g: Function,
    n0: usize,
    id: usize,
    x: usize,
    y: usize,
    rv: usize,
    v0: usize,
    env: Seq<u64>,
)
    requires
        env.len() == g.dfg.num_values(),
        v0 + 7 <= usize::MAX,
        n0 + 4 <= usize::MAX,
        x < v0,
        y < v0,
        rv < v0,
        v0 + 7 <= g.dfg.num_values(),
        n0 + 4 <= g.dfg.num_insts(),
        id < g.dfg.num_insts(),
        g.dfg.insts@[n0 as int].opcode is Isplit,
        g.dfg.insts@[n0 as int].ty is I64,
        g.dfg.insts@[n0 as int].args@ == seq![x],
        g.dfg.results@[n0 as int]@ == seq![v0, (v0 + 1) as usize],
        g.dfg.insts@[n0 + 1].opcode is Isplit,
        g.dfg.insts@[n0 + 1].ty is I64,
        g.dfg.insts@[n0 + 1].args@ == seq![y],
        g.dfg.results@[n0 + 1]@ == seq![(v0 + 2) as usize, (v0 + 3) as usize],
        g.dfg.insts@[n0 + 2].opcode is IaddCout,
        g.dfg.insts@[n0 + 2].ty is I32,
        g.dfg.insts@[n0 + 2].args@ == seq![v0, (v0 + 2) as usize],
        g.dfg.results@[n0 + 2]@ == seq![(v0 + 4) as usize, (v0 + 5) as usize],
        g.dfg.insts@[n0 + 3].opcode is IaddCarry,
        g.dfg.insts@[n0 + 3].ty is I32,
        g.dfg.insts@[n0 + 3].args@
            == seq![(v0 + 1) as usize, (v0 + 3) as usize, (v0 + 5) as usize],
        g.dfg.results@[n0 + 3]@ == seq![(v0 + 6) as usize],
        g.dfg.insts@[id as int].opcode is Iconcat,
        g.dfg.insts@[id as int].ty is I32,
        g.dfg.insts@[id as int].args@ == seq![(v0 + 4) as usize, (v0 + 6) as usize],
        g.dfg.results@[id as int]@ == seq![rv],
    ensures
        ({
            let emitted = seq![n0, (n0 + 1) as usize, (n0 + 2) as usize, (n0 + 3) as usize, id];
            &&& eval_ids(g, emitted, env) is Some
            &&& eval_ids(g, emitted, env)->Some_0[rv as int]
                == ((env[x as int] + env[y as int]) % 0x1_0000_0000_0000_0000) as u64
            &&& forall|v: int| 0 <= v < env.len() && v != rv && !(v0 <= v < v0 + 7)
                ==> eval_ids(g, emitted, env)->Some_0[v] == env[v]
        }),
{
    let emitted = seq![n0, (n0 + 1) as usize, (n0 + 2) as usize, (n0 + 3) as usize, id];
    let s1 = seq![n0];
    let s2 = seq![n0, (n0 + 1) as usize];
    let s3 = seq![n0, (n0 + 1) as usize, (n0 + 2) as usize];
    let s4 = seq![n0, (n0 + 1) as usize, (n0 + 2) as usize, (n0 + 3) as usize];
    assert(s1.drop_last() =~= Seq::<usize>::empty());
    assert(s2.drop_last() =~= s1);
    assert(s3.drop_last() =~= s2);
    assert(s4.drop_last() =~= s3);
    assert(emitted.drop_last() =~= s4);

    let b: int = 0x1_0000_0000;
    let w: int = 0x1_0000_0000_0000_0000;
    let xv = env[x as int];
    let yv = env[y as int];
    let e1 = env.update(v0 as int, (xv as int % b) as u64)
        .update(v0 + 1, ((xv as int / b) % b) as u64);
    assert(eval_one(g, n0, env) is Some);
    assert(eval_one(g, n0, env)->Some_0 =~= e1);
    assert(eval_one(g, n0, env) == Some(e1));
    let e2 = e1.update(v0 + 2, (yv as int % b) as u64)
        .update(v0 + 3, ((yv as int / b) % b) as u64);
    assert(eval_one(g, (n0 + 1) as usize, e1) is Some);
    assert(eval_one(g, (n0 + 1) as usize, e1)->Some_0 =~= e2);
    assert(eval_one(g, (n0 + 1) as usize, e1) == Some(e2));
    let s = e2[v0 as int] + e2[v0 + 2];
    let e3 = e2.update(v0 + 4, (s % b) as u64).update(v0 + 5, (s / b) as u64);
    assert(eval_one(g, (n0 + 2) as usize, e2) is Some);
    assert(eval_one(g, (n0 + 2) as usize, e2)->Some_0 =~= e3);
    assert(eval_one(g, (n0 + 2) as usize, e2) == Some(e3));
    let s2v = e3[v0 + 1] + e3[v0 + 3] + e3[v0 + 5];
    let e4 = e3.update(v0 + 6, (s2v % b) as u64);
    assert(eval_one(g, (n0 + 3) as usize, e3) is Some);
    assert(eval_one(g, (n0 + 3) as usize, e3)->Some_0 =~= e4);
    assert(eval_one(g, (n0 + 3) as usize, e3) == Some(e4));
    let cc = (e4[v0 + 4] as int % b) + (e4[v0 + 6] as int % b) * b;
    let e5 = e4.update(rv as int, (cc % w) as u64);
    assert(eval_one(g, id, e4) is Some);
    assert(eval_one(g, id, e4)->Some_0 =~= e5);
    assert(eval_one(g, id, e4) == Some(e5));
    assert(eval_ids(g, Seq::<usize>::empty(), env) == Some(env));
    assert(eval_ids(g, s1, env) == Some(e1));
    assert(eval_ids(g, s2, env) == Some(e2));
    assert(eval_ids(g, s3, env) == Some(e3));
    assert(eval_ids(g, s4, env) == Some(e4));
    assert(eval_ids(g, emitted, env) == Some(e5));

    lemma_carry_chain_mod(xv, yv);
    assert(e5[rv as int] == ((xv + yv) % w) as u64);
    assert forall|v: int| 0 <= v < env.len() && v != rv && !(v0 <= v < v0 + 7)
        implies e5[v] == env[v] by {
    }
}

/// Execute the emitted carry chain on concrete operand values. The
/// result is bit-identical to the 64-bit wraparound sum, for every
/// input, including the boundary values.
pub fn narrowed_add(x: u64, y: u64) -> (r: u64)
    ensures
        r == ((x + y) as u64),
{
    // isplit x; isplit y
    let xl = x & 0xffff_ffff;
    let xh = x >> 32;
    let yl = y & 0xffff_ffff;
    let yh = y >> 32;
    proof {
        assert(x & 0xffff_ffff <= 0xffff_ffff && x >> 32 <= 0xffff_ffff) by (bit_vector);
        assert(y & 0xffff_ffff <= 0xffff_ffff && y >> 32 <= 0xffff_ffff) by (bit_vector);
    }
    // (lo, c) := iadd_cout xl, yl
    let s = xl + yl;
    let lo = s & 0xffff_ffff;
    let c = s >> 32;
    proof {
        assert(s >> 32 <= 1) by (bit_vector)
            requires
                s <= 0x1_ffff_fffe,
        ;
    }
    // hi := iadd_carry xh, yh, c
    let hi = (xh + yh + c) & 0xffff_ffff;
    // r := iconcat lo, hi
    let r = lo | (hi << 32);
    proof {
        lemma_narrow_add_sound(x, y);
    }
    r
}

} // verus!
