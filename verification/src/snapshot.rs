//! The persisted snapshot of a controller: an ordered layer list with each
//! weight matrix and bias vector, framed as a flat word sequence. Encoding
//! then decoding gives the controller back, widths and parameters intact.

use vstd::prelude::*;
use vstd::arithmetic::div_mod::{
    lemma_fundamental_div_mod_converse_div,
    lemma_fundamental_div_mod_converse_mod,
};
use crate::brain::{CarBrain, Level, rows_in_unit, zero_seq, zero_words, MAX_WIDTH};
use crate::fixed::all_in_unit;

verus! {

/// Most levels a snapshot can carry.
pub const MAX_LEVELS: usize = 10000;

/// Well-formedness of one level's parameters: bounded widths, one weight per
/// input and output pair, and every value in [-1.0, 1.0].
pub open spec fn level_params_wf(p: (Seq<Seq<i64>>, Seq<i64>)) -> bool {
    &&& p.0.len() <= MAX_WIDTH as int
    &&& p.1.len() <= MAX_WIDTH as int
    &&& forall|i: int| 0 <= i < p.0.len() ==> (#[trigger] p.0[i]).len() == p.1.len()
    &&& rows_in_unit(p.0)
    &&& all_in_unit(p.1)
}

/// Well-formedness of a whole parameter list: at least one level, every
/// level well formed, and the widths chaining level to level.
pub open spec fn params_wf(m: Seq<(Seq<Seq<i64>>, Seq<i64>)>) -> bool {
    &&& 1 <= m.len() <= MAX_LEVELS as int
    &&& forall|k: int| 0 <= k < m.len() ==> level_params_wf(#[trigger] m[k])
    &&& forall|k: int| 1 <= k < m.len() ==> (#[trigger] m[k]).0.len() == m[k - 1].1.len()
}

/// A weight matrix flattened row by row.
pub open spec fn flat_weights(w: Seq<Seq<i64>>, n_out: nat) -> Seq<i64> {
    Seq::new(w.len() * n_out, |t: int| w[t / n_out as int][t % n_out as int])
}

/// One level's frame: its two widths, the flattened weights, the biases.
pub open spec fn encode_level(p: (Seq<Seq<i64>>, Seq<i64>)) -> Seq<i64> {
    seq![p.0.len() as i64, p.1.len() as i64] + flat_weights(p.0, p.1.len()) + p.1
}

/// Every level's frame, in order.
pub open spec fn encode_levels(m: Seq<(Seq<Seq<i64>>, Seq<i64>)>) -> Seq<i64>
    decreases m.len(),
{
    if m.len() == 0 {
        Seq::empty()
    } else {
        encode_level(m[0]) + encode_levels(m.drop_first())
    }
}

/// The whole snapshot: the level count, then each level's frame.
pub open spec fn spec_encode(m: Seq<(Seq<Seq<i64>>, Seq<i64>)>) -> Seq<i64> {
    seq![m.len() as i64] + encode_levels(m)
}

/// Parses `count` level frames from `s`, whole and nothing more, checking
/// widths, the chain against `expect_in`, and every value's range.
pub open spec fn decode_levels(s: Seq<i64>, expect_in: Option<int>, count: nat) -> Option<
    Seq<(Seq<Seq<i64>>, Seq<i64>)>,
>
    decreases count,
{
    if count == 0 {
        if s.len() == 0 {
            Some(Seq::empty())
        } else {
            None
        }
    } else if s.len() < 2 {
        None
    } else if !(0 <= s[0] <= MAX_WIDTH as i64 && 0 <= s[1] <= MAX_WIDTH as i64) {
        None
    } else if (match expect_in {
        Some(e) => e != s[0] as int,
        None => false,
    }) {
        None
    } else if s.len() < 2 + s[0] * s[1] + s[1] {
        None
    } else {
        let n_in = s[0] as int;
        let n_out = s[1] as int;
        let w = Seq::new(
            n_in as nat,
            |i: int| Seq::new(n_out as nat, |jj: int| s[2 + i * n_out + jj]),
        );
        let b = Seq::new(n_out as nat, |jj: int| s[2 + n_in * n_out + jj]);
        if !(rows_in_unit(w) && all_in_unit(b)) {
            None
        } else {
            match decode_levels(s.skip(2 + n_in * n_out + n_out), Some(n_out), (count - 1) as nat) {
                Some(rest) => Some(seq![(w, b)] + rest),
                None => None,
            }
        }
    }
}

/// Parses a whole snapshot: the level count, then exactly that many frames.
pub open spec fn spec_decode(s: Seq<i64>) -> Option<Seq<(Seq<Seq<i64>>, Seq<i64>)>> {
    if s.len() < 1 || s[0] < 1 {
        None
    } else {
        decode_levels(s.skip(1), None, s[0] as nat)
    }
}

/// Decoding undoes encoding, frame by frame.
proof fn lemma_decode_encode_levels(m: Seq<(Seq<Seq<i64>>, Seq<i64>)>, expect_in: Option<int>)
    requires
        forall|k: int| 0 <= k < m.len() ==> level_params_wf(#[trigger] m[k]),
        forall|k: int| 1 <= k < m.len() ==> (#[trigger] m[k]).0.len() == m[k - 1].1.len(),
        m.len() > 0 ==> (match expect_in {
            Some(e) => m[0].0.len() == e,
            None => true,
        }),
    ensures
        decode_levels(encode_levels(m), expect_in, m.len()) == Some(m),
    decreases m.len(),
{
    if m.len() == 0 {
        assert(encode_levels(m).len() == 0);
        assert(m =~= Seq::<(Seq<Seq<i64>>, Seq<i64>)>::empty());
    } else {
        let p = m[0];
        let w = p.0;
        let b = p.1;
        let n_in = w.len() as int;
        let n_out = b.len() as int;
        let s = encode_levels(m);
        let head = encode_level(p);
        let tail = encode_levels(m.drop_first());
        assert(s == head + tail);
        assert(head.len() == 2 + n_in * n_out + n_out);
        assert(s[0] == n_in as i64);
        assert(s[1] == n_out as i64);
        let dw = Seq::new(
            n_in as nat,
            |i: int| Seq::new(n_out as nat, |jj: int| s[2 + i * n_out + jj]),
        );
        let db = Seq::new(n_out as nat, |jj: int| s[2 + n_in * n_out + jj]);
        assert forall|i: int, jj: int| 0 <= i < n_in && 0 <= jj < n_out implies dw[i][jj] == w[i][jj] by {
            assert(0 <= i * n_out + jj && i * n_out + jj < n_in * n_out) by (nonlinear_arith)
                requires
                    0 <= i < n_in,
                    0 <= jj < n_out,
            ;
            let t = i * n_out + jj;
            lemma_fundamental_div_mod_converse_div(t, n_out, i, jj);
            lemma_fundamental_div_mod_converse_mod(t, n_out, i, jj);
            assert(s[2 + t] == head[2 + t]);
            assert(head[2 + t] == flat_weights(w, n_out as nat)[t]);
            assert(flat_weights(w, n_out as nat)[t] == w[i][jj]);
            assert(dw[i][jj] == s[2 + t]);
        }
        assert forall|i: int| 0 <= i < n_in implies dw[i] == w[i] by {
            assert(dw[i] =~= w[i]);
        }
        assert(dw =~= w);
        assert forall|jj: int| 0 <= jj < n_out implies db[jj] == b[jj] by {
            assert(s[2 + n_in * n_out + jj] == head[2 + n_in * n_out + jj]);
            assert(head[2 + n_in * n_out + jj] == b[jj]);
        }
        assert(db =~= b);
        assert(s.skip(2 + n_in * n_out + n_out) =~= tail);
        assert forall|k: int| 0 <= k < m.drop_first().len() implies level_params_wf(
            #[trigger] m.drop_first()[k],
        ) by {
            assert(m.drop_first()[k] == m[k + 1]);
        }
        assert forall|k: int| 1 <= k < m.drop_first().len() implies (#[trigger] m.drop_first()[
            k
        ]).0.len() == m.drop_first()[k - 1].1.len() by {
            assert(m.drop_first()[k] == m[k + 1]);
            assert(m.drop_first()[k - 1] == m[k]);
        }
        if m.drop_first().len() > 0 {
            assert(m.drop_first()[0] == m[1]);
            assert(m[1].0.len() == m[0].1.len());
        }
        lemma_decode_encode_levels(m.drop_first(), Some(n_out));
        assert(decode_levels(s, expect_in, m.len()) == Some(seq![(dw, db)] + m.drop_first()));
        assert(seq![(dw, db)] + m.drop_first() =~= m);
    }
}

/// Snapshot round-trip: decoding an encoded parameter list gives exactly the
/// widths, weights and biases that were encoded. Together with `encode`'s
/// and `decode`'s contracts, a controller written out and read back keeps
/// every layer width and every parameter.
pub proof fn lemma_snapshot_round_trip(m: Seq<(Seq<Seq<i64>>, Seq<i64>)>)
    requires
        params_wf(m),
    ensures
        spec_decode(spec_encode(m)) == Some(m),
{
    let s = spec_encode(m);
    assert(s[0] == m.len() as i64);
    assert(s.skip(1) =~= encode_levels(m));
    lemma_decode_encode_levels(m, None);
}


/// Appending one level's frame extends the encoding.
proof fn lemma_encode_levels_snoc(m: Seq<(Seq<Seq<i64>>, Seq<i64>)>, p: (Seq<Seq<i64>>, Seq<i64>))
    ensures
        encode_levels(m.push(p)) == encode_levels(m) + encode_level(p),
    decreases m.len(),
{
    if m.len() == 0 {
        assert(m.push(p).drop_first() =~= Seq::<(Seq<Seq<i64>>, Seq<i64>)>::empty());
        assert(m.push(p)[0] == p);
        assert(encode_levels(Seq::<(Seq<Seq<i64>>, Seq<i64>)>::empty())
            == Seq::<i64>::empty());
        assert(encode_level(p) + Seq::<i64>::empty() =~= encode_level(p));
        assert(encode_levels(m) + encode_level(p) =~= encode_level(p));
        assert(encode_levels(m.push(p)) =~= encode_levels(m) + encode_level(p));
    } else {
        assert(m.push(p).drop_first() =~= m.drop_first().push(p));
        assert(m.push(p)[0] == m[0]);
        lemma_encode_levels_snoc(m.drop_first(), p);
        assert(encode_level(m[0]) + (encode_levels(m.drop_first()) + encode_level(p)) =~= (
        encode_level(m[0]) + encode_levels(m.drop_first())) + encode_level(p));
    }
}

impl CarBrain {
    /// Frames this controller's widths, weights and biases as a flat word
    /// sequence: the persisted snapshot. Scratch buffers are not stored.
    pub fn encode(&self) -> (r: Vec<i64>)
        requires
            self.wf(),
            self.levels@.len() <= MAX_LEVELS,
        ensures
            r@ == spec_encode(self.params()),
    {
        let n = self.levels.len();
        let mut r: Vec<i64> = Vec::new();
        r.push(n as i64);
        let mut k: usize = 0;
        while k < n
            invariant
                k <= n,
                r@ == seq![n as i64] + encode_levels(self.params().take(k as int)),
            decreases n - k,
        {
            let ghost prefix = r@;
            let lev = &self.levels[k];
            let n_in = lev.weights.len();
            let n_out = lev.biases.len();
            let ghost w = lev.weights.deep_view();
            let ghost flat = flat_weights(w, n_out as nat);
            proof {
                crate::brain::lemma_rows_view(lev.weights);
            }
            r.push(n_in as i64);
            r.push(n_out as i64);
            proof {
                assert(r@ =~= prefix + seq![n_in as i64, n_out as i64]);
            }
            let ghost base = r@;
            let mut i: usize = 0;
            while i < n_in
                invariant
                    i <= n_in,
                    r@ == base + flat.take((i * n_out) as int),
                decreases n_in - i,
            {
                let mut jj: usize = 0;
                while jj < n_out
                    invariant
                        jj <= n_out,
                        i < n_in,
                        r@ == base + flat.take((i * n_out + jj) as int),
                    decreases n_out - jj,
                {
                    proof {
                        assert(
                            0 <= i * n_out + jj && i * n_out + jj < n_in * n_out
                                && (i + 1) * n_out <= n_in * n_out
                        ) by (nonlinear_arith)
                            requires
                                0 <= i < n_in,
                                0 <= jj < n_out,
                        ;
                        lemma_fundamental_div_mod_converse_div(
                            i * n_out + jj,
                            n_out as int,
                            i as int,
                            jj as int,
                        );
                        lemma_fundamental_div_mod_converse_mod(
                            i * n_out + jj,
                            n_out as int,
                            i as int,
                            jj as int,
                        );
                        assert(flat[(i * n_out + jj) as int] == w[i as int][jj as int]);
                        assert(w[i as int] == lev.weights@[i as int]@);
                    }
                    r.push(lev.weights[i][jj]);
                    proof {
                        assert(r@ =~= base + flat.take((i * n_out + jj + 1) as int));
                    }
                    jj = jj + 1;
                }
                proof {
                    assert((i + 1) * n_out == i * n_out + n_out) by (nonlinear_arith);
                }
                i = i + 1;
            }
            proof {
                assert(flat.take((n_in * n_out) as int) =~= flat);
                assert(r@ == base + flat);
            }
            let ghost base2 = r@;
            let mut jj: usize = 0;
            while jj < n_out
                invariant
                    jj <= n_out,
                    r@ == base2 + lev.biases@.take(jj as int),
                decreases n_out - jj,
            {
                r.push(lev.biases[jj]);
                proof {
                    assert(r@ =~= base2 + lev.biases@.take(jj as int + 1));
                }
                jj = jj + 1;
            }
            proof {
                assert(lev.biases@.take(n_out as int) =~= lev.biases@);
                assert(self.params()[k as int] == (w, lev.biases@));
                assert(r@ =~= prefix + encode_level(self.params()[k as int]));
                lemma_encode_levels_snoc(self.params().take(k as int), self.params()[k as int]);
                assert(self.params().take(k as int).push(self.params()[k as int]) =~= self.params().take(
                    k as int + 1,
                ));
                assert(r@ =~= seq![n as i64] + encode_levels(self.params().take(k as int + 1)));
            }
            k = k + 1;
        }
        proof {
            assert(self.params().take(n as int) =~= self.params());
        }
        r
    }
}


/// The parameters of every level of an owned level list, in order.
pub open spec fn levels_params(ls: Seq<Level>) -> Seq<(Seq<Seq<i64>>, Seq<i64>)> {
    Seq::new(ls.len(), |k: int| ls[k].params())
}

/// Prepends an already-parsed prefix to a parse result.
pub open spec fn opt_prepend(
    prefix: Seq<(Seq<Seq<i64>>, Seq<i64>)>,
    o: Option<Seq<(Seq<Seq<i64>>, Seq<i64>)>>,
) -> Option<Seq<(Seq<Seq<i64>>, Seq<i64>)>> {
    match o {
        Some(rest) => Some(prefix + rest),
        None => None,
    }
}

/// The input width the next parsed level must have, given those parsed so
/// far.
pub open spec fn expect_of(ls: Seq<Level>) -> Option<int> {
    if ls.len() == 0 {
        None
    } else {
        Some(ls.last().n_out() as int)
    }
}

/// Copies `len` words starting at `start`, refusing any outside [-1.0, 1.0].
fn read_words(words: &Vec<i64>, start: usize, len: usize) -> (r: Option<Vec<i64>>)
    requires
        start + len <= words@.len(),
    ensures
        match r {
            Some(v) => v@ == words@.subrange(start as int, start + len) && all_in_unit(v@),
            None => !all_in_unit(words@.subrange(start as int, start + len)),
        },
{
    let n = words.len();
    let mut v: Vec<i64> = Vec::new();
    let mut i: usize = 0;
    while i < len
        invariant
            i <= len,
            start + len <= n == words@.len(),
            v@ == words@.subrange(start as int, start + i),
            all_in_unit(v@),
        decreases len - i,
    {
        let x = words[start + i];
        if x < -crate::fixed::ONE || x > crate::fixed::ONE {
            proof {
                assert(words@.subrange(start as int, start + len)[i as int] == x);
            }
            return None;
        }
        v.push(x);
        proof {
            assert(v@ =~= words@.subrange(start as int, start + i + 1));
        }
        i = i + 1;
    }
    Some(v)
}

/// Parses a snapshot back into a controller with zeroed scratch buffers.
/// Returns the controller exactly when the words are a whole, well-formed
/// frame: right widths, chained levels, every value in range, nothing left
/// over — a mismatched topology fails fast.
pub fn decode(words: &Vec<i64>) -> (r: Option<CarBrain>)
    ensures
        match r {
            Some(c) => {
                &&& c.wf()
                &&& Some(c.params()) == spec_decode(words@)
                &&& forall|k: int|
                    0 <= k < c.levels@.len() ==> (#[trigger] c.levels@[k]).inputs@ == zero_seq(
                        c.levels@[k].n_in(),
                    ) && c.levels@[k].outputs@ == zero_seq(c.levels@[k].n_out())
            },
            None => spec_decode(words@) is None,
        },
{
    if words.len() == 0 {
        return None;
    }
    let count_w: i64 = words[0];
    if count_w < 1 {
        return None;
    }
    let mut built: Vec<Level> = Vec::new();
    let mut pos: usize = 1;
    let mut k: i64 = 0;
    while k < count_w
        invariant
            0 <= k <= count_w,
            1 <= pos <= words@.len(),
            built@.len() == k,
            forall|t: int| 0 <= t < k ==> (#[trigger] built@[t]).wf(),
            forall|t: int|
                0 <= t < k ==> (#[trigger] built@[t]).inputs@ == zero_seq(built@[t].n_in())
                    && built@[t].outputs@ == zero_seq(built@[t].n_out()),
            forall|t: int|
                1 <= t < k ==> (#[trigger] built@[t]).n_in() == built@[t - 1].n_out(),
            decode_levels(words@.skip(1), None, count_w as nat) == opt_prepend(
                levels_params(built@),
                decode_levels(words@.skip(pos as int), expect_of(built@), (count_w - k) as nat),
            ),
        decreases count_w - k,
    {
        let ghost srem = words@.skip(pos as int);
        let ghost rem = (count_w - k) as nat;
        if words.len() - pos < 2 {
            proof {
                assert(decode_levels(srem, expect_of(built@), rem) is None);
            }
            return None;
        }
        let n_in_w: i64 = words[pos];
        let n_out_w: i64 = words[pos + 1];
        proof {
            assert(srem[0] == n_in_w);
            assert(srem[1] == n_out_w);
        }
        if n_in_w < 0 || n_in_w > MAX_WIDTH as i64 || n_out_w < 0 || n_out_w > MAX_WIDTH as i64 {
            proof {
                assert(decode_levels(srem, expect_of(built@), rem) is None);
            }
            return None;
        }
        let n_in: usize = n_in_w as usize;
        let n_out: usize = n_out_w as usize;
        if k > 0 {
            let prev_out = built[built.len() - 1].biases.len();
            if n_in != prev_out {
                proof {
                    assert(decode_levels(srem, expect_of(built@), rem) is None);
                }
                return None;
            }
        }
        proof {
            assert(n_in * n_out <= 100000000) by (nonlinear_arith)
                requires
                    n_in <= 10000,
                    n_out <= 10000,
            ;
        }
        let wlen: usize = n_in * n_out;
        if words.len() - pos - 2 < wlen || words.len() - pos - 2 - wlen < n_out {
            proof {
                assert(srem.len() < 2 + n_in_w * n_out_w + n_out_w);
                assert(decode_levels(srem, expect_of(built@), rem) is None);
            }
            return None;
        }
        let ghost sw = Seq::new(
            n_in as nat,
            |i: int| Seq::new(n_out as nat, |jj: int| srem[2 + i * (n_out as int) + jj]),
        );
        let ghost sb = Seq::new(n_out as nat, |jj: int| srem[2 + (n_in as int) * (n_out as int) + jj]);
        let mut weights: Vec<Vec<i64>> = Vec::new();
        let mut i: usize = 0;
        while i < n_in
            invariant
                i <= n_in,
                weights@.len() == i,
                pos + 2 + wlen + n_out <= words@.len(),
                wlen == n_in * n_out,
                forall|t: int| 0 <= t < i ==> (#[trigger] weights@[t])@ == sw[t],
                forall|t: int| 0 <= t < i ==> all_in_unit((#[trigger] weights@[t])@),
                forall|t: int| 0 <= t < i ==> (#[trigger] weights@[t])@.len() == n_out,
            decreases n_in - i,
        {
            proof {
                assert(i * n_out + n_out <= n_in * n_out) by (nonlinear_arith)
                    requires
                        0 <= i < n_in,
                ;
            }
            let row = read_words(words, pos + 2 + i * n_out, n_out);
            match row {
                None => {
                    proof {
                        let jj = choose|jj: int|
                            0 <= jj < n_out && !crate::fixed::in_unit(
                                #[trigger] words@.subrange(
                                    (pos + 2 + i * n_out) as int,
                                    (pos + 2 + i * n_out + n_out) as int,
                                )[jj],
                            );
                        assert(sw[i as int][jj] == words@[(pos + 2 + i * n_out) as int + jj]);
                        assert(!all_in_unit(sw[i as int]));
                        assert(!rows_in_unit(sw));
                        assert(decode_levels(srem, expect_of(built@), rem) is None);
                    }
                    return None;
                },
                Some(row) => {
                    proof {
                        assert forall|jj: int| 0 <= jj < n_out implies row@[jj] == sw[i as int][jj] by {
                            assert(row@[jj] == words@[(pos + 2 + i * n_out) as int + jj]);
                        }
                        assert(row@ =~= sw[i as int]);
                    }
                    weights.push(row);
                },
            }
            i = i + 1;
        }
        let biases_opt = read_words(words, pos + 2 + wlen, n_out);
        let biases: Vec<i64> = match biases_opt {
            None => {
                proof {
                    let jj = choose|jj: int|
                        0 <= jj < n_out && !crate::fixed::in_unit(
                            #[trigger] words@.subrange(
                                (pos + 2 + wlen) as int,
                                (pos + 2 + wlen + n_out) as int,
                            )[jj],
                        );
                    assert(sb[jj] == words@[(pos + 2 + wlen) as int + jj]);
                    assert(!all_in_unit(sb));
                    assert(decode_levels(srem, expect_of(built@), rem) is None);
                }
                return None;
            },
            Some(b) => {
                proof {
                    assert forall|jj: int| 0 <= jj < n_out implies b@[jj] == sb[jj] by {
                        assert(b@[jj] == words@[(pos + 2 + wlen) as int + jj]);
                    }
                    assert(b@ =~= sb);
                }
                b
            },
        };
        let lev = Level {
            weights,
            biases,
            inputs: zero_words(n_in),
            outputs: zero_words(n_out),
        };
        proof {
            crate::brain::lemma_rows_view(lev.weights);
            assert(lev.weights.deep_view() =~= sw);
            assert(lev.wf());
            assert(lev.params() == (sw, sb));
            // one unfolding of the parse
            assert(rows_in_unit(sw));
            assert(all_in_unit(sb));
            assert(srem.skip(2 + (n_in as int) * (n_out as int) + (n_out as int)) =~= words@.skip(
                (pos + 2 + wlen + n_out) as int,
            ));
            assert(decode_levels(srem, expect_of(built@), rem) == opt_prepend(
                seq![(sw, sb)],
                decode_levels(
                    words@.skip((pos + 2 + wlen + n_out) as int),
                    Some(n_out as int),
                    (rem - 1) as nat,
                ),
            ));
        }
        let ghost built0 = built@;
        built.push(lev);
        pos = pos + 2 + wlen + n_out;
        k = k + 1;
        proof {
            assert(levels_params(built@) =~= levels_params(built0) + seq![(sw, sb)]);
            assert(expect_of(built@) == Some(n_out as int));
            match decode_levels(words@.skip(pos as int), expect_of(built@), (count_w - k) as nat) {
                Some(rest) => {
                    assert(levels_params(built0) + (seq![(sw, sb)] + rest) =~= levels_params(
                        built@,
                    ) + rest);
                },
                None => {},
            }
        }
    }
    if pos != words.len() {
        proof {
            assert(words@.skip(pos as int).len() != 0);
            assert(decode_levels(words@.skip(pos as int), expect_of(built@), 0) is None);
        }
        return None;
    }
    let c = CarBrain { levels: built };
    proof {
        assert(words@.skip(pos as int).len() == 0);
        assert(decode_levels(words@.skip(pos as int), expect_of(built@), 0) == Some(
            Seq::<(Seq<Seq<i64>>, Seq<i64>)>::empty(),
        ));
        assert(levels_params(built@) + Seq::<(Seq<Seq<i64>>, Seq<i64>)>::empty() =~= levels_params(
            built@,
        ));
        assert(c.params() =~= levels_params(built@));
        assert(c.wf());
    }
    Some(c)
}


/// A well-formed controller's parameters are a well-formed parameter list,
/// so `lemma_snapshot_round_trip` applies to every controller this crate
/// builds: its encoded snapshot decodes back to exactly its parameters.
pub proof fn lemma_brain_snapshot_round_trip(b: CarBrain)
    requires
        b.wf(),
        b.levels@.len() <= MAX_LEVELS,
    ensures
        params_wf(b.params()),
        spec_decode(spec_encode(b.params())) == Some(b.params()),
{
    assert forall|k: int| 0 <= k < b.params().len() implies level_params_wf(
        #[trigger] b.params()[k],
    ) by {
        crate::brain::lemma_rows_view(b.levels@[k].weights);
        assert(b.params()[k] == (b.levels@[k].weights.deep_view(), b.levels@[k].biases@));
        assert forall|i: int|
            0 <= i < b.levels@[k].weights.deep_view().len() implies (#[trigger] b.levels@[
            k
        ].weights.deep_view()[i]).len() == b.levels@[k].biases@.len() by {
            assert(b.levels@[k].weights.deep_view()[i] == b.levels@[k].weights@[i]@);
        }
    }
    assert forall|k: int| 1 <= k < b.params().len() implies (#[trigger] b.params()[k]).0.len()
        == b.params()[k - 1].1.len() by {
        crate::brain::lemma_rows_view(b.levels@[k].weights);
        assert(b.levels@[k].n_out() == b.levels@[k].biases@.len());
        assert(b.levels@[k - 1].n_out() == b.levels@[k].n_in());
    }
    lemma_snapshot_round_trip(b.params());
}

} // verus!
