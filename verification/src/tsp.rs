//! The threshold-accepting optimization engine: the current tour, the
//! seeded pseudo-random source, the search-state scalars, and the best
//! tour ever observed. Tour costs are exact `i128` sums of edge
//! weights (raw units); callers divide by the normalizer to present
//! dimensionless figures.

use vstd::prelude::*;

use crate::ErrorTsp;
use crate::aleatorio::crear_rng;
use crate::aleatorio::rango_aleatorio;
use crate::db::NUM_CIUDADES;
use crate::db::id_valido;
use crate::db::lista_acotada;
use crate::grafica::Grafica;
use crate::grafica::GraficaModelo;
use crate::grafica::NORMALIZADOR_MAX;
use crate::grafica::PESO_COTA;
use crate::grafica::lemma_peso_cota;
use crate::grafica::lemma_peso_simetrico;
use crate::grafica::modelo_wf;
use crate::grafica::peso_spec;

verus! {

/// Exclusive bound on the cost of any tour of at most `NUM_CIUDADES`
/// cities: at most 1092 edges, each below `PESO_COTA`.
pub const COSTO_COTA: i128 = 1093 * PESO_COTA;

/// Every entry of the tour is a valid city id.
pub open spec fn tour_valido(t: Seq<i64>) -> bool {
    forall|k: int| 0 <= k < t.len() ==> id_valido((#[trigger] t[k]) as int)
}

/// The cost of the open tour from edge slot `i` on: the sum of the
/// weights of the consecutive pairs from `(t[i], t[i+1])` to
/// `(t[n-2], t[n-1])`. The closing edge back to the start is never
/// counted: the tour is an open path.
pub open spec fn costo_desde(m: GraficaModelo, t: Seq<i64>, i: int) -> int
    decreases t.len() - i,
{
    if i < 0 || i + 1 >= t.len() {
        0
    } else {
        peso_spec(m, t[i] as int, t[i + 1] as int) + costo_desde(m, t, i + 1)
    }
}

/// The full cost of the open tour.
pub open spec fn costo_spec(m: GraficaModelo, t: Seq<i64>) -> int {
    costo_desde(m, t, 0)
}

/// The tour with the cities at positions `a` and `b` exchanged.
pub open spec fn intercambio(t: Seq<i64>, a: int, b: int) -> Seq<i64> {
    t.update(a, t[b]).update(b, t[a])
}

/// The weights of the tour edges that touch position `p`: one edge
/// when `p` is the first or the last position, two otherwise.
pub open spec fn peso_vecinos(m: GraficaModelo, t: Seq<i64>, p: int) -> int {
    (if p > 0 {
        peso_spec(m, t[p - 1] as int, t[p] as int)
    } else {
        0
    }) + (if p + 1 < t.len() {
        peso_spec(m, t[p] as int, t[p + 1] as int)
    } else {
        0
    })
}

/// A tour's cost lies in `[0, (len - i) * PESO_COTA]`.
pub proof fn lemma_costo_cota(m: GraficaModelo, t: Seq<i64>, i: int)
    requires
        modelo_wf(m),
        tour_valido(t),
        0 <= i <= t.len(),
    ensures
        0 <= costo_desde(m, t, i) <= (t.len() - i) * (PESO_COTA as int),
    decreases t.len() - i,
{
    if i + 1 >= t.len() {
        assert(0 <= (t.len() - i) * (PESO_COTA as int)) by (nonlinear_arith)
            requires
                t.len() - i >= 0,
                PESO_COTA > 0,
        ;
    } else {
        lemma_peso_cota(m, t[i] as int, t[i + 1] as int);
        lemma_costo_cota(m, t, i + 1);
        assert((t.len() - i) * (PESO_COTA as int) == (PESO_COTA as int) + (t.len() - (i + 1)) * (
        PESO_COTA as int)) by (nonlinear_arith)
            requires
                0 <= i,
                i + 1 < t.len(),
        ;
    }
}

/// A tour's cost lies in `[0, (len - 1 - i) * (PESO_COTA - 1)]`: at
/// most one edge per remaining slot, each strictly below `PESO_COTA`.
pub proof fn lemma_costo_cota_fina(m: GraficaModelo, t: Seq<i64>, i: int)
    requires
        modelo_wf(m),
        tour_valido(t),
        0 <= i,
    ensures
        0 <= costo_desde(m, t, i) <= (if i <= t.len() - 1 {
            (t.len() - 1 - i) * (PESO_COTA - 1)
        } else {
            0int
        }),
    decreases t.len() - i,
{
    if i + 1 >= t.len() {
        if i <= t.len() - 1 {
            assert((t.len() - 1 - i) * ((PESO_COTA - 1) as int) >= 0) by (nonlinear_arith)
                requires
                    t.len() - 1 - i >= 0,
                    PESO_COTA > 1,
            ;
        }
    } else {
        lemma_peso_cota(m, t[i] as int, t[i + 1] as int);
        lemma_costo_cota_fina(m, t, i + 1);
        assert((t.len() - 1 - i) * ((PESO_COTA - 1) as int) == ((PESO_COTA - 1) as int) + (t.len()
            - 1 - (i + 1)) * ((PESO_COTA - 1) as int)) by (nonlinear_arith)
            requires
                0 <= i,
                i + 1 < t.len(),
        ;
    }
}

/// The full cost of a tour of at most `NUM_CIUDADES` cities lies in
/// `[0, COSTO_COTA)`.
pub proof fn lemma_costo_total_cota(m: GraficaModelo, t: Seq<i64>)
    requires
        modelo_wf(m),
        tour_valido(t),
        t.len() <= NUM_CIUDADES,
    ensures
        0 <= costo_spec(m, t) <= COSTO_COTA,
        costo_spec(m, t) < COSTO_COTA,
{
    lemma_costo_cota_fina(m, t, 0);
    if t.len() >= 1 {
        assert((t.len() - 1) * ((PESO_COTA - 1) as int) < 1093 * (PESO_COTA as int))
            by (nonlinear_arith)
            requires
                t.len() <= 1093,
                PESO_COTA > 1,
        ;
    }
}

/// Two tours that agree on positions `i..=j` show the same cost
/// difference at slot `i` as at slot `j`.
pub proof fn lemma_costo_tramo_igual(m: GraficaModelo, t1: Seq<i64>, t2: Seq<i64>, i: int, j: int)
    requires
        t1.len() == t2.len(),
        0 <= i <= j,
        forall|k: int| #![trigger t1[k]] i <= k <= j && k < t1.len() ==> t1[k] == t2[k],
    ensures
        costo_desde(m, t1, i) - costo_desde(m, t2, i) == costo_desde(m, t1, j) - costo_desde(
            m,
            t2,
            j,
        ),
    decreases j - i,
{
    if i < j {
        if i + 1 >= t1.len() {
            assert(costo_desde(m, t1, i) == 0);
            assert(costo_desde(m, t2, i) == 0);
            assert(costo_desde(m, t1, j) == 0);
            assert(costo_desde(m, t2, j) == 0);
        } else {
            assert(t1[i] == t2[i]);
            assert(t1[i + 1] == t2[i + 1]);
            lemma_costo_tramo_igual(m, t1, t2, i + 1, j);
        }
    }
}

/// The delta rule of the swap move: the cost of the swapped tour is
/// the old cost, less the weights of the edges that touched the two
/// positions before the swap, plus the weights of the same edge slots
/// after it. This is exactly what the incremental update computes.
pub proof fn lemma_costo_intercambio(m: GraficaModelo, t: Seq<i64>, a: int, b: int)
    requires
        modelo_wf(m),
        tour_valido(t),
        0 <= a < t.len(),
        0 <= b < t.len(),
    ensures
        costo_spec(m, intercambio(t, a, b)) == costo_spec(m, t) - peso_vecinos(m, t, a)
            - peso_vecinos(m, t, b) + peso_vecinos(m, intercambio(t, a, b), a) + peso_vecinos(
            m,
            intercambio(t, a, b),
            b,
        ),
{
    let s = intercambio(t, a, b);
    let n = t.len() as int;
    assert(s.len() == n);
    if a == b {
        assert(s =~= t);
    } else {
        let lo = if a < b {
            a
        } else {
            b
        };
        let hi = if a < b {
            b
        } else {
            a
        };
        assert(s =~= intercambio(t, lo, hi));
        assert(s[lo] == t[hi]);
        assert(s[hi] == t[lo]);
        assert(forall|k: int| #![trigger s[k]] 0 <= k < n && k != lo && k != hi ==> s[k] == t[k]);
        lemma_costo_tramo_igual(m, s, t, hi + 1, n);
        assert(costo_desde(m, s, n) == 0);
        assert(costo_desde(m, t, n) == 0);
        let d_hi1 = costo_desde(m, s, hi + 1) - costo_desde(m, t, hi + 1);
        assert(d_hi1 == 0);
        if hi == lo + 1 {
            lemma_peso_simetrico(m, t[lo] as int, t[hi] as int);
            if lo > 0 {
                lemma_costo_tramo_igual(m, s, t, 0, lo - 1);
            }
            if hi + 1 < n {
                assert(costo_desde(m, s, hi) == peso_spec(m, s[hi] as int, s[hi + 1] as int)
                    + costo_desde(m, s, hi + 1));
                assert(costo_desde(m, t, hi) == peso_spec(m, t[hi] as int, t[hi + 1] as int)
                    + costo_desde(m, t, hi + 1));
            } else {
                assert(costo_desde(m, s, hi) == 0);
                assert(costo_desde(m, t, hi) == 0);
            }
            assert(costo_desde(m, s, lo) == peso_spec(m, s[lo] as int, s[hi] as int) + costo_desde(
                m,
                s,
                hi,
            ));
            assert(costo_desde(m, t, lo) == peso_spec(m, t[lo] as int, t[hi] as int) + costo_desde(
                m,
                t,
                hi,
            ));
            if lo > 0 {
                assert(costo_desde(m, s, lo - 1) == peso_spec(m, s[lo - 1] as int, s[lo] as int)
                    + costo_desde(m, s, lo));
                assert(costo_desde(m, t, lo - 1) == peso_spec(m, t[lo - 1] as int, t[lo] as int)
                    + costo_desde(m, t, lo));
            }
        } else {
            lemma_costo_tramo_igual(m, s, t, lo + 1, hi - 1);
            if lo > 0 {
                lemma_costo_tramo_igual(m, s, t, 0, lo - 1);
            }
            if hi + 1 < n {
                assert(costo_desde(m, s, hi) == peso_spec(m, s[hi] as int, s[hi + 1] as int)
                    + costo_desde(m, s, hi + 1));
                assert(costo_desde(m, t, hi) == peso_spec(m, t[hi] as int, t[hi + 1] as int)
                    + costo_desde(m, t, hi + 1));
            } else {
                assert(costo_desde(m, s, hi) == 0);
                assert(costo_desde(m, t, hi) == 0);
            }
            assert(costo_desde(m, s, hi - 1) == peso_spec(m, s[hi - 1] as int, s[hi] as int)
                + costo_desde(m, s, hi));
            assert(costo_desde(m, t, hi - 1) == peso_spec(m, t[hi - 1] as int, t[hi] as int)
                + costo_desde(m, t, hi));
            assert(costo_desde(m, s, lo) == peso_spec(m, s[lo] as int, s[lo + 1] as int)
                + costo_desde(m, s, lo + 1));
            assert(costo_desde(m, t, lo) == peso_spec(m, t[lo] as int, t[lo + 1] as int)
                + costo_desde(m, t, lo + 1));
            if lo > 0 {
                assert(costo_desde(m, s, lo - 1) == peso_spec(m, s[lo - 1] as int, s[lo] as int)
                    + costo_desde(m, s, lo));
                assert(costo_desde(m, t, lo - 1) == peso_spec(m, t[lo - 1] as int, t[lo] as int)
                    + costo_desde(m, t, lo));
            }
        }
    }
}

/// Exchanging the same two positions twice restores the tour exactly.
pub proof fn lemma_intercambio_involutivo(t: Seq<i64>, a: int, b: int)
    requires
        0 <= a < t.len(),
        0 <= b < t.len(),
    ensures
        intercambio(intercambio(t, a, b), a, b) == t,
{
    assert(intercambio(intercambio(t, a, b), a, b) =~= t);
}

/// The engine. `solucion_actual` is the live tour, mutated in place by
/// swaps; `peso_solucion_actual` its cost while the search runs;
/// `mejor_solucion` and `mejor_solucion_arr` the best cost and tour
/// ever accepted, the authoritative output; `soluciones_aceptadas`
/// the append-only trace of accepted costs; `soluciones_para_svg` the
/// same trace with a flag marking new-best entries; `temperatura` the
/// current acceptance threshold in raw cost units; `promedio_suma`
/// over `promedio_cuenta` the exact running batch average.
#[derive(Debug)]
pub struct Tsp {
    pub grafica: Grafica,
    pub soluciones_aceptadas: Vec<i128>,
    pub solucion_actual: Vec<i64>,
    pub temperatura: i128,
    pub promedio_suma: i128,
    pub promedio_cuenta: i128,
    pub mejor_solucion: i128,
    pub normalizador: u64,
    pub random: rand::rngs::StdRng,
    pub peso_solucion_actual: i128,
    pub mejor_solucion_arr: Vec<i64>,
    pub soluciones_para_svg: Vec<(i128, bool)>,
}

/// The graph and the normalizer are the same in both states: no
/// engine operation ever changes what an edge weighs.
pub open spec fn mismo_grafo(a: &Tsp, b: &Tsp) -> bool {
    &&& b.grafica.db == a.grafica.db
    &&& b.grafica.modelo() == a.grafica.modelo()
    &&& b.normalizador == a.normalizador
}

impl Tsp {
    pub open spec fn modelo(&self) -> GraficaModelo {
        self.grafica.modelo()
    }

    /// The engine's data is coherent, whatever the tour's length:
    /// what cost evaluation needs.
    pub open spec fn wf_datos(&self) -> bool {
        &&& self.grafica.wf()
        &&& self.solucion_actual@.len() <= NUM_CIUDADES
        &&& tour_valido(self.solucion_actual@)
        &&& self.normalizador == self.grafica.modelo().norm
    }

    /// The search additionally needs a tour with at least two cities:
    /// a shorter one has no edge to move.
    pub open spec fn wf(&self) -> bool {
        &&& self.wf_datos()
        &&& 2 <= self.solucion_actual@.len()
    }

    /// The cost of the live tour, under the engine's model.
    pub open spec fn costo_actual(&self) -> int {
        costo_spec(self.modelo(), self.solucion_actual@)
    }

    /// The sum of the top `n` entries of the ascending distance list
    /// `lista_ordenada`: the normalizing constant that rescales every
    /// cost figure.
    pub fn get_normalizador(lista_ordenada: &Vec<u64>, n: usize) -> (r: u64)
        requires
            n <= lista_ordenada@.len(),
            n <= NUM_CIUDADES,
            lista_acotada(lista_ordenada@),
        ensures
            r as int == suma_sufijo(lista_ordenada@, n as int),
            r < NORMALIZADOR_MAX,
    {
        let largo = lista_ordenada.len();
        let mut i: usize = largo - n;
        let mut normalizador: u64 = 0;
        proof {
            assert((n as int) * 0x7FFF_FFFF < 1093 * 0x8000_0000) by (nonlinear_arith)
                requires
                    n <= 1093,
            ;
        }
        while i < largo
            invariant
                largo == lista_ordenada@.len(),
                n <= largo,
                largo - n <= i <= largo,
                lista_acotada(lista_ordenada@),
                normalizador as int == suma_sufijo(lista_ordenada@, n as int)
                    - suma_sufijo(lista_ordenada@, largo - i),
                normalizador as int <= (i - (largo - n)) * 0x7FFF_FFFF,
                (n as int) * 0x7FFF_FFFF < 1093 * 0x8000_0000,
            decreases largo - i,
        {
            proof {
                lemma_suma_sufijo_paso(lista_ordenada@, largo - i);
                lemma_suma_sufijo_cota(lista_ordenada@, n as int);
                assert((i + 1 - (largo - n)) * 0x7FFF_FFFF == (i - (largo - n)) * 0x7FFF_FFFF
                    + 0x7FFF_FFFF) by (nonlinear_arith);
                assert((i + 1 - (largo - n)) * 0x7FFF_FFFF <= (n as int) * 0x7FFF_FFFF)
                    by (nonlinear_arith)
                    requires
                        i + 1 <= largo,
                ;
            }
            normalizador = normalizador + lista_ordenada[i];
            i = i + 1;
        }
        proof {
            assert(suma_sufijo(lista_ordenada@, 0) == 0);
            assert((n as int) * 0x7FFF_FFFF < NORMALIZADOR_MAX);
        }
        normalizador
    }
}

/// The normalizing constant of an ascending distance list: the sum
/// of its top `n` entries — its last `n`.
pub open spec fn suma_sufijo(s: Seq<u64>, n: int) -> int
    decreases n,
{
    if n <= 0 {
        0
    } else {
        s[s.len() - n] + suma_sufijo(s, n - 1)
    }
}

/// One step of the suffix sum: the suffix of length `k` is its first
/// element plus the suffix of length `k - 1`.
pub proof fn lemma_suma_sufijo_paso(s: Seq<u64>, k: int)
    requires
        k >= 1,
    ensures
        suma_sufijo(s, k) == s[s.len() - k] + suma_sufijo(s, k - 1),
{
}

/// The suffix sum of a bounded list is bounded.
pub proof fn lemma_suma_sufijo_cota(s: Seq<u64>, n: int)
    requires
        lista_acotada(s),
        n <= s.len(),
    ensures
        0 <= suma_sufijo(s, n) <= (if n >= 0 {
            n
        } else {
            0
        }) * 0x7FFF_FFFF,
    decreases n,
{
    if n <= 0 {
        assert((if n >= 0 {
            n
        } else {
            0
        }) * 0x7FFF_FFFF >= 0) by (nonlinear_arith);
    } else {
        lemma_suma_sufijo_cota(s, n - 1);
        lemma_suma_sufijo_paso(s, n);
        assert(n * 0x7FFF_FFFF == (n - 1) * 0x7FFF_FFFF + 0x7FFF_FFFF) by (nonlinear_arith);
    }
}

/// No engine operation changes the append-only traces or the best
/// tour in both states below.
pub open spec fn mismo_rastro(a: &Tsp, b: &Tsp) -> bool {
    &&& b.soluciones_aceptadas == a.soluciones_aceptadas
    &&& b.mejor_solucion == a.mejor_solucion
    &&& b.mejor_solucion_arr == a.mejor_solucion_arr
    &&& b.soluciones_para_svg == a.soluciones_para_svg
}

/// The batch-average state is the same in both states.
pub open spec fn mismo_promedio(a: &Tsp, b: &Tsp) -> bool {
    &&& b.promedio_suma == a.promedio_suma
    &&& b.promedio_cuenta == a.promedio_cuenta
}

/// A copy of a tour.
fn clonar(v: &Vec<i64>) -> (r: Vec<i64>)
    ensures
        r@ == v@,
{
    let mut r: Vec<i64> = Vec::new();
    let mut i: usize = 0;
    while i < v.len()
        invariant
            i <= v@.len(),
            r@ == v@.take(i as int),
        decreases v@.len() - i,
    {
        r.push(v[i]);
        proof {
            assert(v@.take(i + 1) =~= v@.take(i as int).push(v@[i as int]));
        }
        i = i + 1;
    }
    proof {
        assert(v@.take(v@.len() as int) =~= v@);
    }
    r
}

impl Tsp {
    /// The cost of the live tour, recomputed edge by edge: the sum of
    /// the weight of every consecutive pair, an open path with no
    /// closing edge. Touches nothing but the weight cache.
    pub fn calcular_solucion(&mut self) -> (r: i128)
        requires
            old(self).wf_datos(),
        ensures
            final(self).wf_datos(),
            mismo_grafo(old(self), final(self)),
            mismo_rastro(old(self), final(self)),
            mismo_promedio(old(self), final(self)),
            final(self).solucion_actual == old(self).solucion_actual,
            final(self).temperatura == old(self).temperatura,
            final(self).peso_solucion_actual == old(self).peso_solucion_actual,
            final(self).random == old(self).random,
            r == costo_spec(old(self).modelo(), old(self).solucion_actual@),
            0 <= r <= COSTO_COTA,
    {
        let ghost m = self.modelo();
        let n = self.solucion_actual.len();
        let mut i: usize = 0;
        let mut j: usize = 1;
        let mut res: i128 = 0;
        proof {
            lemma_costo_total_cota(m, self.solucion_actual@);
        }
        while j < n
            invariant
                self.wf_datos(),
                mismo_grafo(old(self), self),
                mismo_rastro(old(self), self),
                mismo_promedio(old(self), self),
                self.solucion_actual == old(self).solucion_actual,
                self.temperatura == old(self).temperatura,
                self.peso_solucion_actual == old(self).peso_solucion_actual,
                self.random == old(self).random,
                m == self.modelo(),
                n == self.solucion_actual@.len(),
                j == i + 1,
                1 <= j,
                i <= n,
                res == costo_desde(m, self.solucion_actual@, 0) - costo_desde(
                    m,
                    self.solucion_actual@,
                    i as int,
                ),
                0 <= costo_desde(m, self.solucion_actual@, 0) <= COSTO_COTA,
            decreases n - j,
        {
            let u = self.solucion_actual[i];
            let v = self.solucion_actual[j];
            let p = self.grafica.peso(u, v);
            proof {
                lemma_costo_cota(m, self.solucion_actual@, i as int);
                lemma_costo_cota(m, self.solucion_actual@, i + 1);
                assert(costo_desde(m, self.solucion_actual@, i as int) == peso_spec(
                    m,
                    u as int,
                    v as int,
                ) + costo_desde(m, self.solucion_actual@, i + 1));
            }
            res = res + (p as i128);
            i = i + 1;
            j = j + 1;
        }
        proof {
            assert(costo_desde(m, self.solucion_actual@, i as int) == 0);
        }
        res
    }

    /// The swap move with its incremental (delta) cost update: the
    /// cities at positions `a` and `b` are exchanged in place, and the
    /// cost is updated in at most eight edge evaluations — the edges
    /// that touched the two positions are subtracted against the tour
    /// before the swap, and the same edge slots are added back against
    /// the tour after it. The stored current cost is read as the base
    /// and is not written: the caller decides what to do with the
    /// result. When the stored cost is the true cost of the tour, the
    /// result is exactly the full recomputed cost of the swapped tour.
    #[verifier::rlimit(100)]
    pub fn intercambiar_ciudades(&mut self, a: usize, b: usize) -> (r: i128)
        requires
            old(self).wf(),
            a < old(self).solucion_actual@.len(),
            b < old(self).solucion_actual@.len(),
            -COSTO_COTA <= old(self).peso_solucion_actual <= COSTO_COTA,
        ensures
            final(self).wf(),
            mismo_grafo(old(self), final(self)),
            mismo_rastro(old(self), final(self)),
            mismo_promedio(old(self), final(self)),
            final(self).temperatura == old(self).temperatura,
            final(self).peso_solucion_actual == old(self).peso_solucion_actual,
            final(self).random == old(self).random,
            final(self).solucion_actual@ == intercambio(
                old(self).solucion_actual@,
                a as int,
                b as int,
            ),
            r == old(self).peso_solucion_actual - peso_vecinos(
                old(self).modelo(),
                old(self).solucion_actual@,
                a as int,
            ) - peso_vecinos(old(self).modelo(), old(self).solucion_actual@, b as int)
                + peso_vecinos(old(self).modelo(), final(self).solucion_actual@, a as int)
                + peso_vecinos(old(self).modelo(), final(self).solucion_actual@, b as int),
            old(self).peso_solucion_actual == costo_spec(
                old(self).modelo(),
                old(self).solucion_actual@,
            ) ==> r == costo_spec(old(self).modelo(), final(self).solucion_actual@),
    {
        let ghost m = self.modelo();
        let ghost t0 = self.solucion_actual@;
        let n = self.solucion_actual.len();
        let temp = self.solucion_actual[a];
        let mut solucion: i128 = self.peso_solucion_actual;
        if a != 0 && a != n - 1 {
            let p1 = self.grafica.peso(self.solucion_actual[a - 1], self.solucion_actual[a]);
            solucion = solucion - (p1 as i128);
            let p2 = self.grafica.peso(self.solucion_actual[a], self.solucion_actual[a + 1]);
            solucion = solucion - (p2 as i128);
        } else if a != 0 {
            let p1 = self.grafica.peso(self.solucion_actual[a - 1], self.solucion_actual[a]);
            solucion = solucion - (p1 as i128);
        } else {
            let p2 = self.grafica.peso(self.solucion_actual[a], self.solucion_actual[a + 1]);
            solucion = solucion - (p2 as i128);
        }
        proof {
            assert(solucion == old(self).peso_solucion_actual - peso_vecinos(m, t0, a as int));
        }
        if b != 0 && b != n - 1 {
            let p1 = self.grafica.peso(self.solucion_actual[b - 1], self.solucion_actual[b]);
            solucion = solucion - (p1 as i128);
            let p2 = self.grafica.peso(self.solucion_actual[b], self.solucion_actual[b + 1]);
            solucion = solucion - (p2 as i128);
        } else if b != 0 {
            let p1 = self.grafica.peso(self.solucion_actual[b - 1], self.solucion_actual[b]);
            solucion = solucion - (p1 as i128);
        } else {
            let p2 = self.grafica.peso(self.solucion_actual[b], self.solucion_actual[b + 1]);
            solucion = solucion - (p2 as i128);
        }
        proof {
            assert(solucion == old(self).peso_solucion_actual - peso_vecinos(m, t0, a as int)
                - peso_vecinos(m, t0, b as int));
        }
        let vb = self.solucion_actual[b];
        self.solucion_actual.set(a, vb);
        self.solucion_actual.set(b, temp);
        let ghost t1 = self.solucion_actual@;
        proof {
            assert(t1 == intercambio(t0, a as int, b as int));
            assert forall|k: int| 0 <= k < t1.len() implies id_valido((#[trigger] t1[k]) as int) by {
                assert(t1[k] == t0[k] || t1[k] == t0[a as int] || t1[k] == t0[b as int]);
            }
        }
        if a != 0 && a != n - 1 {
            let p1 = self.grafica.peso(self.solucion_actual[a - 1], self.solucion_actual[a]);
            solucion = solucion + (p1 as i128);
            let p2 = self.grafica.peso(self.solucion_actual[a], self.solucion_actual[a + 1]);
            solucion = solucion + (p2 as i128);
        } else if a != 0 {
            let p1 = self.grafica.peso(self.solucion_actual[a - 1], self.solucion_actual[a]);
            solucion = solucion + (p1 as i128);
        } else {
            let p2 = self.grafica.peso(self.solucion_actual[a], self.solucion_actual[a + 1]);
            solucion = solucion + (p2 as i128);
        }
        proof {
            assert(solucion == old(self).peso_solucion_actual - peso_vecinos(m, t0, a as int)
                - peso_vecinos(m, t0, b as int) + peso_vecinos(m, t1, a as int));
        }
        if b != 0 && b != n - 1 {
            let p1 = self.grafica.peso(self.solucion_actual[b - 1], self.solucion_actual[b]);
            solucion = solucion + (p1 as i128);
            let p2 = self.grafica.peso(self.solucion_actual[b], self.solucion_actual[b + 1]);
            solucion = solucion + (p2 as i128);
        } else if b != 0 {
            let p1 = self.grafica.peso(self.solucion_actual[b - 1], self.solucion_actual[b]);
            solucion = solucion + (p1 as i128);
        } else {
            let p2 = self.grafica.peso(self.solucion_actual[b], self.solucion_actual[b + 1]);
            solucion = solucion + (p2 as i128);
        }
        proof {
            lemma_costo_intercambio(m, t0, a as int, b as int);
        }
        solucion
    }

    /// A uniformly random position of the tour.
    pub fn get_vecino(&mut self) -> (r: i64)
        requires
            old(self).wf(),
        ensures
            final(self).wf(),
            mismo_grafo(old(self), final(self)),
            mismo_rastro(old(self), final(self)),
            mismo_promedio(old(self), final(self)),
            final(self).solucion_actual == old(self).solucion_actual,
            final(self).temperatura == old(self).temperatura,
            final(self).peso_solucion_actual == old(self).peso_solucion_actual,
            final(self).grafica == old(self).grafica,
            0 <= r < old(self).solucion_actual@.len(),
    {
        let n = self.solucion_actual.len();
        let k = rango_aleatorio(&mut self.random, n);
        k as i64
    }

    /// The initial tour: for each position in turn, a uniformly
    /// random partner position is drawn and the two are exchanged — a
    /// full-range shuffle, kept exactly as the search has always drawn
    /// it. The set of cities is untouched; only their order changes.
    pub fn generar_primer_solucion(&mut self)
        requires
            old(self).wf(),
            -COSTO_COTA <= old(self).peso_solucion_actual <= COSTO_COTA,
        ensures
            final(self).wf(),
            mismo_grafo(old(self), final(self)),
            mismo_rastro(old(self), final(self)),
            mismo_promedio(old(self), final(self)),
            final(self).temperatura == old(self).temperatura,
            final(self).peso_solucion_actual == old(self).peso_solucion_actual,
            final(self).solucion_actual@.len() == old(self).solucion_actual@.len(),
            final(self).solucion_actual@.to_multiset() == old(self).solucion_actual@.to_multiset(),
    {
        let mut i: usize = 0;
        while i < self.solucion_actual.len()
            invariant
                self.wf(),
                mismo_grafo(old(self), self),
                mismo_rastro(old(self), self),
                mismo_promedio(old(self), self),
                self.temperatura == old(self).temperatura,
                self.peso_solucion_actual == old(self).peso_solucion_actual,
                -COSTO_COTA <= self.peso_solucion_actual <= COSTO_COTA,
                self.solucion_actual@.len() == old(self).solucion_actual@.len(),
                self.solucion_actual@.to_multiset() == old(self).solucion_actual@.to_multiset(),
            decreases self.solucion_actual@.len() - i,
        {
            let ghost t0 = self.solucion_actual@;
            let n = self.solucion_actual.len();
            let k = rango_aleatorio(&mut self.random, n);
            let _ = self.intercambiar_ciudades(i, k);
            proof {
                crate::db::lemma_intercambio_multiset(t0, i as int, k as int);
            }
            i = i + 1;
        }
    }

    /// A fresh engine over the given graph: the tour as handed in,
    /// the generator seeded from the seed alone, the normalizing
    /// constant fixed from the graph's sorted subset-distance list
    /// and the tour's length, the best cost at its maximum and every
    /// trace empty. Rejects a tour that is too short, too long or
    /// holds an invalid id, a starting temperature out of `[1,
    /// COSTO_COTA]`, and a degenerate instance whose distance list is
    /// shorter than the tour or whose normalizer is zero.
    pub fn new(temperatura: i128, grafica: Grafica, solucion_actual: Vec<i64>, semilla: i64) -> (r:
        Result<Tsp, ErrorTsp>)
        requires
            grafica.wf(),
        ensures
            ({
                let entrada_valida = 2 <= solucion_actual@.len() <= NUM_CIUDADES && tour_valido(
                    solucion_actual@,
                ) && 1 <= temperatura <= COSTO_COTA;
                let degenerada = grafica.db.distancias_tsp@.len() < solucion_actual@.len()
                    || suma_sufijo(
                    grafica.db.distancias_tsp@,
                    solucion_actual@.len() as int,
                ) == 0;
                &&& (r == Err::<Tsp, ErrorTsp>(ErrorTsp::DatosInvalidos) <==> !entrada_valida)
                &&& (r == Err::<Tsp, ErrorTsp>(ErrorTsp::Degenerado) <==> entrada_valida
                    && degenerada)
                &&& (r is Ok <==> entrada_valida && !degenerada)
                &&& r is Ok ==> {
                    let e = r->Ok_0;
                    &&& e.wf()
                    &&& e.solucion_actual == solucion_actual
                    &&& e.temperatura == temperatura
                    &&& e.normalizador as int == suma_sufijo(
                        grafica.db.distancias_tsp@,
                        solucion_actual@.len() as int,
                    )
                    &&& e.normalizador >= 1
                    &&& e.grafica.db == grafica.db
                    &&& e.grafica.modelo().est == grafica.modelo().est
                    &&& e.mejor_solucion == i128::MAX
                    &&& e.soluciones_aceptadas@.len() == 0
                    &&& e.mejor_solucion_arr@.len() == 0
                    &&& e.soluciones_para_svg@.len() == 0
                    &&& e.peso_solucion_actual == 0
                    &&& e.promedio_suma == 0
                    &&& e.promedio_cuenta == 1
                }
            }),
    {
        let n = solucion_actual.len();
        if n < 2 || n > NUM_CIUDADES || temperatura < 1 || temperatura > COSTO_COTA {
            return Err(ErrorTsp::DatosInvalidos);
        }
        let mut i: usize = 0;
        while i < n
            invariant
                n == solucion_actual@.len(),
                i <= n,
                forall|k: int| 0 <= k < i ==> id_valido((#[trigger] solucion_actual@[k]) as int),
            decreases n - i,
        {
            let c = solucion_actual[i];
            if c < 0 || c >= NUM_CIUDADES as i64 {
                return Err(ErrorTsp::DatosInvalidos);
            }
            i = i + 1;
        }
        if grafica.db.distancias_tsp.len() < n {
            return Err(ErrorTsp::Degenerado);
        }
        let normalizador = Self::get_normalizador(&grafica.db.distancias_tsp, n);
        if normalizador == 0 {
            return Err(ErrorTsp::Degenerado);
        }
        let mut grafica = grafica;
        grafica.fijar_normalizador(normalizador);
        let rng = crear_rng(#[verifier::truncate] (semilla as u64));
        Ok(
            Tsp {
                grafica,
                soluciones_aceptadas: Vec::new(),
                solucion_actual,
                temperatura,
                promedio_suma: 0,
                promedio_cuenta: 1,
                mejor_solucion: i128::MAX,
                normalizador,
                random: rng,
                peso_solucion_actual: 0,
                mejor_solucion_arr: Vec::new(),
                soluciones_para_svg: Vec::new(),
            },
        )
    }
}

/// Accepted-count target of a calibration probe out of `LOTE_CAL`
/// candidates: a 60% acceptance rate.
pub const OBJETIVO: u64 = 2100;

/// Candidates drawn by one calibration probe (the probe's loop counts
/// from 1, so it draws one candidate fewer).
pub const LOTE_CAL: u64 = 3500;

/// Accepted moves that complete one batch of the cooling loop.
pub const LOTE: u64 = 7000;

/// Hard bound on the candidates drawn by one batch, accepted or not:
/// a batch never loops forever when acceptances stall.
pub const INTENTOS_MAX: u64 = 140000;

/// Batches run at one temperature while the average keeps improving.
pub const REINTENTOS: u64 = 4;

/// The cooling loop ends when the temperature reaches this floor.
pub const UMBRAL_MIN: i128 = 1;

/// The stored cost of the live tour is its true cost.
pub open spec fn consistente(e: &Tsp) -> bool {
    e.peso_solucion_actual == costo_spec(e.modelo(), e.solucion_actual@)
}

/// The best-tour record is coherent: untouched, or a tour over the
/// same cities whose cost is exactly the recorded best.
pub open spec fn estado_mejor(e: &Tsp) -> bool {
    ||| (e.mejor_solucion == i128::MAX && e.mejor_solucion_arr@.len() == 0)
    ||| {
        &&& e.mejor_solucion == costo_spec(e.modelo(), e.mejor_solucion_arr@)
        &&& e.mejor_solucion_arr@.to_multiset() == e.solucion_actual@.to_multiset()
        &&& tour_valido(e.mejor_solucion_arr@)
        &&& e.mejor_solucion_arr@.len() == e.solucion_actual@.len()
        &&& 0 <= e.mejor_solucion <= COSTO_COTA
    }
}

/// Every accepted cost in the trace is a tour cost, and none beats
/// the recorded best.
pub open spec fn rastro_coherente(e: &Tsp) -> bool {
    forall|k: int|
        0 <= k < e.soluciones_aceptadas@.len() ==> 0 <= #[trigger] e.soluciones_aceptadas@[k]
            <= COSTO_COTA && e.mejor_solucion <= e.soluciones_aceptadas@[k]
}

/// The sum of the trace entries from position `desde` on.
pub open spec fn suma_rango(s: Seq<i128>, desde: int) -> int
    decreases s.len() - desde,
{
    if desde < 0 || desde >= s.len() {
        0
    } else {
        s[desde] + suma_rango(s, desde + 1)
    }
}

/// Appending an entry adds it to every range sum.
pub proof fn lemma_suma_rango_push(s: Seq<i128>, e: i128, desde: int)
    requires
        0 <= desde <= s.len(),
    ensures
        suma_rango(s.push(e), desde) == suma_rango(s, desde) + e,
    decreases s.len() - desde,
{
    if desde == s.len() {
        assert(suma_rango(s.push(e), desde) == s.push(e)[desde] + suma_rango(s.push(e), desde + 1));
        assert(suma_rango(s.push(e), desde + 1) == 0);
        assert(suma_rango(s, desde) == 0);
    } else {
        lemma_suma_rango_push(s, e, desde + 1);
        assert(s.push(e)[desde] == s[desde]);
    }
}

/// The best cost after seeing the trace entries of `[desde, hasta)`,
/// starting from `mejor0`: the running minimum the search keeps.
pub open spec fn mejor_tras(mejor0: i128, s: Seq<i128>, desde: int, hasta: int) -> i128
    decreases hasta - desde,
{
    if desde >= hasta {
        mejor0
    } else {
        mejor_tras(
            if s[desde] < mejor0 {
                s[desde]
            } else {
                mejor0
            },
            s,
            desde + 1,
            hasta,
        )
    }
}

/// The running minimum reads only the entries of its segment.
pub proof fn lemma_mejor_tras_igual(
    mejor0: i128,
    s1: Seq<i128>,
    s2: Seq<i128>,
    desde: int,
    hasta: int,
)
    requires
        forall|k: int| #![trigger s1[k]] desde <= k < hasta ==> s1[k] == s2[k],
    ensures
        mejor_tras(mejor0, s1, desde, hasta) == mejor_tras(mejor0, s2, desde, hasta),
    decreases hasta - desde,
{
    if desde < hasta {
        let paso = if s1[desde] < mejor0 {
            s1[desde]
        } else {
            mejor0
        };
        lemma_mejor_tras_igual(paso, s1, s2, desde + 1, hasta);
    }
}

/// One more entry takes the minimum once more.
pub proof fn lemma_mejor_tras_paso(mejor0: i128, s: Seq<i128>, desde: int, hasta: int)
    requires
        desde <= hasta,
    ensures
        mejor_tras(mejor0, s, desde, hasta + 1) == (if s[hasta] < mejor_tras(
            mejor0,
            s,
            desde,
            hasta,
        ) {
            s[hasta]
        } else {
            mejor_tras(mejor0, s, desde, hasta)
        }),
    decreases hasta - desde,
{
    if desde < hasta {
        let paso = if s[desde] < mejor0 {
            s[desde]
        } else {
            mejor0
        };
        lemma_mejor_tras_paso(paso, s, desde + 1, hasta);
    } else {
        let paso = if s[desde] < mejor0 {
            s[desde]
        } else {
            mejor0
        };
        assert(mejor_tras(mejor0, s, desde, hasta + 1) == mejor_tras(paso, s, desde + 1, hasta
            + 1));
    }
}

/// The running minimum is the start value or one of the entries seen.
pub proof fn lemma_mejor_tras_origen(mejor0: i128, s: Seq<i128>, desde: int, hasta: int)
    requires
        desde <= hasta,
    ensures
        mejor_tras(mejor0, s, desde, hasta) == mejor0 || (exists|k: int|
            desde <= k < hasta && s[k] == mejor_tras(mejor0, s, desde, hasta)),
    decreases hasta - desde,
{
    if desde < hasta {
        let paso = if s[desde] < mejor0 {
            s[desde]
        } else {
            mejor0
        };
        lemma_mejor_tras_origen(paso, s, desde + 1, hasta);
        if mejor_tras(mejor0, s, desde, hasta) == paso && paso != mejor0 {
            assert(s[desde] == mejor_tras(mejor0, s, desde, hasta));
        }
    }
}

impl Tsp {
    /// One calibration probe: draws `LOTE_CAL - 1` candidate swaps and
    /// counts those whose cost does not exceed the current cost plus
    /// the probe threshold `t`; a rejected candidate is undone by
    /// swapping again. The probe is rolled back whole: the tour and
    /// its stored cost end as they began; only the weight cache and
    /// the random source advance. A threshold at or over `COSTO_COTA`
    /// accepts every candidate.
    pub fn porcentajes_aceptados(&mut self, t: i128) -> (c: u64)
        requires
            old(self).wf(),
            consistente(old(self)),
            0 <= t <= 4 * COSTO_COTA,
        ensures
            final(self).wf(),
            consistente(final(self)),
            mismo_grafo(old(self), final(self)),
            mismo_rastro(old(self), final(self)),
            mismo_promedio(old(self), final(self)),
            final(self).solucion_actual@ == old(self).solucion_actual@,
            final(self).peso_solucion_actual == old(self).peso_solucion_actual,
            final(self).temperatura == old(self).temperatura,
            c < LOTE_CAL,
            t >= COSTO_COTA ==> c == LOTE_CAL - 1,
    {
        let ghost m = self.modelo();
        let mut c: u64 = 0;
        let mut i: u64 = 1;
        let s = clonar(&self.solucion_actual);
        let peso_guardado = self.peso_solucion_actual;
        while i < LOTE_CAL
            invariant
                self.wf(),
                consistente(self),
                mismo_grafo(old(self), self),
                mismo_rastro(old(self), self),
                mismo_promedio(old(self), self),
                self.temperatura == old(self).temperatura,
                m == self.modelo(),
                self.solucion_actual@.len() == old(self).solucion_actual@.len(),
                0 <= t <= 4 * COSTO_COTA,
                s@ == old(self).solucion_actual@,
                peso_guardado == old(self).peso_solucion_actual,
                1 <= i <= LOTE_CAL,
                c <= i - 1,
                t >= COSTO_COTA ==> c == i - 1,
            decreases LOTE_CAL - i,
        {
            let a = self.get_vecino();
            let b = self.get_vecino();
            proof {
                lemma_costo_total_cota(m, self.solucion_actual@);
            }
            let ghost t_antes = self.solucion_actual@;
            let new_sol = self.intercambiar_ciudades(a as usize, b as usize);
            proof {
                lemma_costo_total_cota(m, self.solucion_actual@);
            }
            if new_sol <= self.peso_solucion_actual + t {
                c = c + 1;
                self.peso_solucion_actual = new_sol;
            } else {
                proof {
                    lemma_intercambio_involutivo(t_antes, a as int, b as int);
                }
                let _ = self.intercambiar_ciudades(a as usize, b as usize);
            }
            i = i + 1;
        }
        self.solucion_actual = s;
        self.peso_solucion_actual = peso_guardado;
        c
    }

    /// Binary search for the probe threshold whose acceptance count
    /// meets the target, between brackets whose counts straddle it;
    /// stops when the count is exact or the bracket closes.
    pub fn busqueda_binaria(&mut self, t1: i128, t2: i128, porc: u64) -> (r: i128)
        requires
            old(self).wf(),
            consistente(old(self)),
            0 <= t1 <= t2 <= 4 * COSTO_COTA,
        ensures
            final(self).wf(),
            consistente(final(self)),
            mismo_grafo(old(self), final(self)),
            mismo_rastro(old(self), final(self)),
            mismo_promedio(old(self), final(self)),
            final(self).solucion_actual@ == old(self).solucion_actual@,
            final(self).peso_solucion_actual == old(self).peso_solucion_actual,
            final(self).temperatura == old(self).temperatura,
            t1 <= r <= t2,
        decreases t2 - t1,
    {
        let tm = (t1 + t2) / 2;
        if t2 - t1 < 2 {
            return tm;
        }
        let p = self.porcentajes_aceptados(tm);
        if p == porc {
            return tm;
        }
        if p > porc {
            self.busqueda_binaria(t1, tm, porc)
        } else {
            self.busqueda_binaria(tm, t2, porc)
        }
    }

    /// Auto-calibration of the starting threshold: doubles or halves
    /// the temperature until the probe acceptance count brackets the
    /// target, then binary-searches inside the bracket. Leaves the
    /// tour and its cost exactly as they were. A threshold at
    /// `COSTO_COTA` accepts everything, so the doubling stops; the
    /// halving stops at the integer floor.
    pub fn temperatura_inicial(&mut self)
        requires
            old(self).wf(),
            consistente(old(self)),
            1 <= old(self).temperatura <= COSTO_COTA,
        ensures
            final(self).wf(),
            consistente(final(self)),
            mismo_grafo(old(self), final(self)),
            mismo_rastro(old(self), final(self)),
            mismo_promedio(old(self), final(self)),
            final(self).solucion_actual@ == old(self).solucion_actual@,
            final(self).peso_solucion_actual == old(self).peso_solucion_actual,
            1 <= final(self).temperatura <= 2 * COSTO_COTA,
    {
        let porc = OBJETIVO;
        let mut t = self.temperatura;
        let mut p = self.porcentajes_aceptados(t);
        if p == porc {
            return ;
        }
        let t1: i128;
        let t2: i128;
        if p < porc {
            while p < porc
                invariant
                    self.wf(),
                    consistente(self),
                    mismo_grafo(old(self), self),
                    mismo_rastro(old(self), self),
                    mismo_promedio(old(self), self),
                    self.solucion_actual@ == old(self).solucion_actual@,
                    self.peso_solucion_actual == old(self).peso_solucion_actual,
                    self.temperatura == old(self).temperatura,
                    1 <= t <= 2 * COSTO_COTA,
                    porc == OBJETIVO,
                    p >= porc ==> t >= 2,
                    t >= COSTO_COTA ==> p == LOTE_CAL - 1,
                decreases (if t >= COSTO_COTA {
                    0int
                } else {
                    COSTO_COTA - t
                }),
            {
                t = t * 2;
                p = self.porcentajes_aceptados(t);
            }
            t1 = t / 2;
            t2 = t;
        } else {
            while p > porc && t >= 2
                invariant
                    self.wf(),
                    consistente(self),
                    mismo_grafo(old(self), self),
                    mismo_rastro(old(self), self),
                    mismo_promedio(old(self), self),
                    self.solucion_actual@ == old(self).solucion_actual@,
                    self.peso_solucion_actual == old(self).peso_solucion_actual,
                    self.temperatura == old(self).temperatura,
                    porc == OBJETIVO,
                    1 <= t <= COSTO_COTA,
                decreases t,
            {
                t = t / 2;
                p = self.porcentajes_aceptados(t);
            }
            t1 = t;
            t2 = t * 2;
        }
        let res = self.busqueda_binaria(t1, t2, porc);
        self.temperatura = res;
    }

    /// One batch: draws candidate swaps until `LOTE` have been
    /// accepted or `INTENTOS_MAX` have been drawn. A candidate is
    /// accepted exactly when its cost is strictly below the current
    /// cost plus the temperature; an accepted cost joins the trace
    /// and becomes current, a rejected swap is undone by swapping
    /// again. The best tour ever seen is updated on every new
    /// minimum. Ends by recording the batch's exact average as the
    /// sum and count of its accepted costs.
    #[verifier::rlimit(100)]
    pub fn calcular_lote(&mut self)
        requires
            old(self).wf(),
            consistente(old(self)),
            estado_mejor(old(self)),
            rastro_coherente(old(self)),
            0 <= old(self).temperatura <= 2 * COSTO_COTA,
        ensures
            final(self).wf(),
            consistente(final(self)),
            estado_mejor(final(self)),
            rastro_coherente(final(self)),
            mismo_grafo(old(self), final(self)),
            final(self).temperatura == old(self).temperatura,
            final(self).solucion_actual@.len() == old(self).solucion_actual@.len(),
            final(self).solucion_actual@.to_multiset() == old(self).solucion_actual@.to_multiset(),
            old(self).soluciones_aceptadas@.is_prefix_of(final(self).soluciones_aceptadas@),
            final(self).mejor_solucion <= old(self).mejor_solucion,
            final(self).soluciones_aceptadas@.len() <= old(self).soluciones_aceptadas@.len()
                + LOTE,
            final(self).soluciones_para_svg@.len() == old(self).soluciones_para_svg@.len() + (
            final(self).soluciones_aceptadas@.len() - old(self).soluciones_aceptadas@.len()),
            final(self).promedio_suma == suma_rango(
                final(self).soluciones_aceptadas@,
                old(self).soluciones_aceptadas@.len() as int,
            ),
            0 <= final(self).promedio_suma <= 7000 * COSTO_COTA,
            1 <= final(self).promedio_cuenta <= 7000,
            final(self).promedio_cuenta == (if final(self).soluciones_aceptadas@.len() == old(
                self,
            ).soluciones_aceptadas@.len() {
                1int
            } else {
                final(self).soluciones_aceptadas@.len() - old(self).soluciones_aceptadas@.len()
            }),
            ({
                let lo = old(self).soluciones_aceptadas@.len() as int;
                let hi = final(self).soluciones_aceptadas@.len() as int;
                forall|k: int|
                    lo <= k < hi ==> #[trigger] final(self).soluciones_aceptadas@[k] < (if k == lo {
                        old(self).peso_solucion_actual
                    } else {
                        final(self).soluciones_aceptadas@[k - 1]
                    }) + old(self).temperatura
            }),
            final(self).peso_solucion_actual == (if final(self).soluciones_aceptadas@.len() == old(
                self,
            ).soluciones_aceptadas@.len() {
                old(self).peso_solucion_actual
            } else {
                final(self).soluciones_aceptadas@[final(self).soluciones_aceptadas@.len() - 1]
            }),
            final(self).soluciones_aceptadas@.len() == old(self).soluciones_aceptadas@.len()
                ==> final(self).solucion_actual@ == old(self).solucion_actual@,
            old(self).temperatura >= COSTO_COTA ==> final(self).soluciones_aceptadas@.len()
                == old(self).soluciones_aceptadas@.len() + LOTE,
            final(self).mejor_solucion == mejor_tras(
                old(self).mejor_solucion,
                final(self).soluciones_aceptadas@,
                old(self).soluciones_aceptadas@.len() as int,
                final(self).soluciones_aceptadas@.len() as int,
            ),
            ({
                let lo = old(self).soluciones_aceptadas@.len() as int;
                let hi = final(self).soluciones_aceptadas@.len() as int;
                let svg0 = old(self).soluciones_para_svg@.len() as int;
                forall|k: int|
                    lo <= k < hi ==> #[trigger] final(self).soluciones_para_svg@[svg0 + (k - lo)]
                        == (
                    final(self).soluciones_aceptadas@[k],
                    final(self).soluciones_aceptadas@[k] < mejor_tras(
                        old(self).mejor_solucion,
                        final(self).soluciones_aceptadas@,
                        lo,
                        k,
                    ),
                )
            }),
    {
        let ghost m = self.modelo();
        let ghost base = old(self).soluciones_aceptadas@.len() as int;
        let mut c: u64 = 0;
        let mut r: i128 = 0;
        let mut intentos: u64 = 0;
        while c < LOTE && intentos < INTENTOS_MAX
            invariant
                self.wf(),
                consistente(self),
                estado_mejor(self),
                rastro_coherente(self),
                mismo_grafo(old(self), self),
                self.temperatura == old(self).temperatura,
                0 <= self.temperatura <= 2 * COSTO_COTA,
                m == self.modelo(),
                self.solucion_actual@.len() == old(self).solucion_actual@.len(),
                self.solucion_actual@.to_multiset() == old(self).solucion_actual@.to_multiset(),
                old(self).soluciones_aceptadas@.is_prefix_of(self.soluciones_aceptadas@),
                self.mejor_solucion <= old(self).mejor_solucion,
                base == old(self).soluciones_aceptadas@.len(),
                self.soluciones_aceptadas@.len() == base + c,
                self.soluciones_para_svg@.len() == old(self).soluciones_para_svg@.len() + c,
                c <= LOTE,
                c <= intentos,
                intentos <= INTENTOS_MAX,
                r == suma_rango(self.soluciones_aceptadas@, base),
                0 <= r <= (c as int) * COSTO_COTA,
                self.peso_solucion_actual == (if c == 0 {
                    old(self).peso_solucion_actual
                } else {
                    self.soluciones_aceptadas@[base + c - 1]
                }),
                c == 0 ==> self.solucion_actual@ == old(self).solucion_actual@,
                old(self).temperatura >= COSTO_COTA ==> c == intentos,
                self.mejor_solucion == mejor_tras(
                    old(self).mejor_solucion,
                    self.soluciones_aceptadas@,
                    base,
                    base + c,
                ),
                forall|k: int|
                    base <= k < base + c ==> #[trigger] self.soluciones_aceptadas@[k] < (if k
                        == base {
                        old(self).peso_solucion_actual
                    } else {
                        self.soluciones_aceptadas@[k - 1]
                    }) + old(self).temperatura,
                forall|k: int|
                    base <= k < base + c ==> #[trigger] self.soluciones_para_svg@[old(
                        self,
                    ).soluciones_para_svg@.len() + (k - base)] == (
                    self.soluciones_aceptadas@[k],
                    self.soluciones_aceptadas@[k] < mejor_tras(
                        old(self).mejor_solucion,
                        self.soluciones_aceptadas@,
                        base,
                        k,
                    ),
                ),
            decreases INTENTOS_MAX - intentos,
        {
            let a = self.get_vecino();
            let b = self.get_vecino();
            proof {
                lemma_costo_total_cota(m, self.solucion_actual@);
            }
            let ghost t_antes = self.solucion_actual@;
            let new_sol = self.intercambiar_ciudades(a as usize, b as usize);
            proof {
                lemma_costo_total_cota(m, self.solucion_actual@);
                crate::db::lemma_intercambio_multiset(t_antes, a as int, b as int);
            }
            if new_sol < self.peso_solucion_actual + self.temperatura {
                let ghost rastro_antes = self.soluciones_aceptadas@;
                c = c + 1;
                proof {
                    assert((c as int) * COSTO_COTA == (c - 1) * COSTO_COTA + COSTO_COTA)
                        by (nonlinear_arith);
                    assert((c as int) * COSTO_COTA <= 7000 * COSTO_COTA) by (nonlinear_arith)
                        requires
                            0 <= c <= 7000,
                    ;
                }
                r = r + new_sol;
                self.soluciones_aceptadas.push(new_sol);
                self.peso_solucion_actual = new_sol;
                let mut es_mejora = false;
                if new_sol < self.mejor_solucion {
                    self.mejor_solucion = new_sol;
                    self.mejor_solucion_arr = clonar(&self.solucion_actual);
                    es_mejora = true;
                }
                self.soluciones_para_svg.push((new_sol, es_mejora));
                proof {
                    lemma_suma_rango_push(rastro_antes, new_sol, base);
                    assert(old(self).soluciones_aceptadas@.is_prefix_of(
                        self.soluciones_aceptadas@,
                    )) by {
                        assert(self.soluciones_aceptadas@.subrange(0, base)
                            =~= rastro_antes.subrange(0, base));
                    }
                    lemma_mejor_tras_igual(
                        old(self).mejor_solucion,
                        rastro_antes,
                        self.soluciones_aceptadas@,
                        base,
                        base + (c - 1),
                    );
                    lemma_mejor_tras_paso(
                        old(self).mejor_solucion,
                        self.soluciones_aceptadas@,
                        base,
                        base + (c - 1),
                    );
                    assert forall|k: int| base <= k <= base + (c - 1) implies mejor_tras(
                        old(self).mejor_solucion,
                        self.soluciones_aceptadas@,
                        base,
                        k,
                    ) == mejor_tras(old(self).mejor_solucion, rastro_antes, base, k) by {
                        lemma_mejor_tras_igual(
                            old(self).mejor_solucion,
                            rastro_antes,
                            self.soluciones_aceptadas@,
                            base,
                            k,
                        );
                    }
                }
            } else {
                proof {
                    lemma_intercambio_involutivo(t_antes, a as int, b as int);
                    if old(self).temperatura >= COSTO_COTA {
                        assert(new_sol < COSTO_COTA);
                        assert(false);
                    }
                }
                let _ = self.intercambiar_ciudades(a as usize, b as usize);
            }
            intentos = intentos + 1;
        }
        self.promedio_suma = r;
        if c == 0 {
            self.promedio_cuenta = 1;
        } else {
            self.promedio_cuenta = c as i128;
        }
        proof {
            assert((c as int) * COSTO_COTA <= 7000 * COSTO_COTA) by (nonlinear_arith)
                requires
                    c <= 7000,
            ;
        }
    }

    /// The threshold-accepting search. Shuffles the initial tour,
    /// computes its cost, calibrates the starting temperature, then
    /// alternates batches and geometric cooling: at each temperature,
    /// batches repeat while the exact batch average does not exceed
    /// the previous one, capped at `REINTENTOS`; then the temperature
    /// is multiplied by 95/100. Ends when the temperature reaches the
    /// integer floor `UMBRAL_MIN`. The best tour and cost ever
    /// accepted stand in `mejor_solucion_arr` and `mejor_solucion`,
    /// the authoritative output.
    pub fn aceptacion_por_umbrales(&mut self)
        requires
            old(self).wf(),
            estado_mejor(old(self)),
            rastro_coherente(old(self)),
            1 <= old(self).temperatura <= COSTO_COTA,
            -COSTO_COTA <= old(self).peso_solucion_actual <= COSTO_COTA,
        ensures
            final(self).wf(),
            consistente(final(self)),
            estado_mejor(final(self)),
            rastro_coherente(final(self)),
            mismo_grafo(old(self), final(self)),
            final(self).solucion_actual@.len() == old(self).solucion_actual@.len(),
            final(self).solucion_actual@.to_multiset() == old(self).solucion_actual@.to_multiset(),
            old(self).soluciones_aceptadas@.is_prefix_of(final(self).soluciones_aceptadas@),
            final(self).mejor_solucion <= old(self).mejor_solucion,
            final(self).mejor_solucion == old(self).mejor_solucion
                || final(self).soluciones_aceptadas@.contains(final(self).mejor_solucion),
            final(self).temperatura <= UMBRAL_MIN,
    {
        let ghost m = self.modelo();
        self.generar_primer_solucion();
        let costo = self.calcular_solucion();
        self.peso_solucion_actual = costo;
        self.temperatura_inicial();
        self.promedio_suma = 0;
        self.promedio_cuenta = 1;
        while self.temperatura > UMBRAL_MIN
            invariant
                self.wf(),
                consistente(self),
                estado_mejor(self),
                rastro_coherente(self),
                mismo_grafo(old(self), self),
                m == self.modelo(),
                0 <= self.temperatura <= 2 * COSTO_COTA,
                self.solucion_actual@.len() == old(self).solucion_actual@.len(),
                self.solucion_actual@.to_multiset() == old(self).solucion_actual@.to_multiset(),
                old(self).soluciones_aceptadas@.is_prefix_of(self.soluciones_aceptadas@),
                self.mejor_solucion <= old(self).mejor_solucion,
                self.mejor_solucion == old(self).mejor_solucion
                    || self.soluciones_aceptadas@.contains(self.mejor_solucion),
                0 <= self.promedio_suma <= 7000 * COSTO_COTA,
                1 <= self.promedio_cuenta <= 7000,
            decreases self.temperatura,
        {
            let ghost temp0 = self.temperatura;
            let mut continuar = true;
            let mut reintentos: u64 = 0;
            while continuar && reintentos < REINTENTOS
                invariant
                    self.wf(),
                    consistente(self),
                    estado_mejor(self),
                    rastro_coherente(self),
                    mismo_grafo(old(self), self),
                    m == self.modelo(),
                    self.temperatura == temp0,
                    UMBRAL_MIN < temp0 <= 2 * COSTO_COTA,
                    self.solucion_actual@.len() == old(self).solucion_actual@.len(),
                    self.solucion_actual@.to_multiset() == old(
                        self,
                    ).solucion_actual@.to_multiset(),
                    old(self).soluciones_aceptadas@.is_prefix_of(self.soluciones_aceptadas@),
                    self.mejor_solucion <= old(self).mejor_solucion,
                    self.mejor_solucion == old(self).mejor_solucion
                        || self.soluciones_aceptadas@.contains(self.mejor_solucion),
                    0 <= self.promedio_suma <= 7000 * COSTO_COTA,
                    1 <= self.promedio_cuenta <= 7000,
                    reintentos <= REINTENTOS,
                decreases REINTENTOS - reintentos,
            {
                let q_s = self.promedio_suma;
                let q_c = self.promedio_cuenta;
                let ghost rastro_antes = self.soluciones_aceptadas@;
                let ghost mejor_pre = self.mejor_solucion;
                self.calcular_lote();
                proof {
                    lemma_mejor_tras_origen(
                        mejor_pre,
                        self.soluciones_aceptadas@,
                        rastro_antes.len() as int,
                        self.soluciones_aceptadas@.len() as int,
                    );
                    if self.mejor_solucion == mejor_pre {
                        if mejor_pre != old(self).mejor_solucion {
                            let w = choose|w: int|
                                0 <= w < rastro_antes.len() && rastro_antes[w] == mejor_pre;
                            assert(self.soluciones_aceptadas@.subrange(
                                0,
                                rastro_antes.len() as int,
                            )[w] == rastro_antes[w]);
                            assert(self.soluciones_aceptadas@[w] == mejor_pre);
                        }
                    } else {
                        let k = choose|k: int|
                            rastro_antes.len() <= k < self.soluciones_aceptadas@.len()
                                && self.soluciones_aceptadas@[k] == self.mejor_solucion;
                        assert(self.soluciones_aceptadas@.contains(self.mejor_solucion));
                    }
                    assert(old(self).soluciones_aceptadas@.is_prefix_of(
                        self.soluciones_aceptadas@,
                    )) by {
                        assert(rastro_antes.subrange(
                            0,
                            old(self).soluciones_aceptadas@.len() as int,
                        ) =~= self.soluciones_aceptadas@.subrange(
                            0,
                            old(self).soluciones_aceptadas@.len() as int,
                        ));
                    }
                    assert(self.promedio_suma * q_c <= (7000 * COSTO_COTA) * 7000)
                        by (nonlinear_arith)
                        requires
                            0 <= self.promedio_suma <= 7000 * COSTO_COTA,
                            0 <= q_c <= 7000,
                    ;
                    assert(q_s * self.promedio_cuenta <= (7000 * COSTO_COTA) * 7000)
                        by (nonlinear_arith)
                        requires
                            0 <= q_s <= 7000 * COSTO_COTA,
                            0 <= self.promedio_cuenta <= 7000,
                    ;
                    assert(self.promedio_suma * q_c >= 0) by (nonlinear_arith)
                        requires
                            self.promedio_suma >= 0,
                            q_c >= 0,
                    ;
                    assert(q_s * self.promedio_cuenta >= 0) by (nonlinear_arith)
                        requires
                            q_s >= 0,
                            self.promedio_cuenta >= 0,
                    ;
                }
                continuar = self.promedio_suma * q_c <= q_s * self.promedio_cuenta;
                reintentos = reintentos + 1;
            }
            proof {
                assert(self.temperatura * 95 / 100 < self.temperatura) by (nonlinear_arith)
                    requires
                        self.temperatura >= 1,
                ;
                assert(self.temperatura * 95 / 100 >= 0) by (nonlinear_arith)
                    requires
                        self.temperatura >= 0,
                ;
                assert(self.temperatura * 95 / 100 <= 2 * COSTO_COTA) by (nonlinear_arith)
                    requires
                        0 <= self.temperatura <= 2 * COSTO_COTA,
                ;
            }
            self.temperatura = self.temperatura * 95 / 100;
        }
    }

    /// The first-improvement sweep: tries every pair of positions in
    /// order and commits any swap that strictly lowers the cost,
    /// restarting the sweep from the top after each improvement — an
    /// explicit restart, never recursion. Ends in a tour none of
    /// whose position swaps improves it: a swap-local optimum.
    pub fn barrido(&mut self)
        requires
            old(self).wf(),
        ensures
            final(self).wf(),
            consistente(final(self)),
            mismo_grafo(old(self), final(self)),
            mismo_rastro(old(self), final(self)),
            mismo_promedio(old(self), final(self)),
            final(self).temperatura == old(self).temperatura,
            final(self).solucion_actual@.len() == old(self).solucion_actual@.len(),
            final(self).solucion_actual@.to_multiset() == old(self).solucion_actual@.to_multiset(),
            final(self).peso_solucion_actual <= costo_spec(
                old(self).modelo(),
                old(self).solucion_actual@,
            ),
            forall|x: int, y: int|
                0 <= x < y < final(self).solucion_actual@.len() ==> costo_spec(
                    final(self).modelo(),
                    intercambio(final(self).solucion_actual@, x, y),
                ) >= final(self).peso_solucion_actual,
    {
        let ghost m = self.modelo();
        let costo = self.calcular_solucion();
        self.peso_solucion_actual = costo;
        let mut a: usize = 0;
        let mut i: usize = 1;
        let n = self.solucion_actual.len();
        while a < n
            invariant
                self.wf(),
                consistente(self),
                mismo_grafo(old(self), self),
                mismo_rastro(old(self), self),
                mismo_promedio(old(self), self),
                self.temperatura == old(self).temperatura,
                m == self.modelo(),
                n == self.solucion_actual@.len(),
                self.solucion_actual@.len() == old(self).solucion_actual@.len(),
                self.solucion_actual@.to_multiset() == old(self).solucion_actual@.to_multiset(),
                self.peso_solucion_actual <= costo_spec(m, old(self).solucion_actual@),
                0 <= self.peso_solucion_actual,
                a + 1 <= i,
                a <= n,
                i <= n + 1,
                forall|x: int, y: int|
                    0 <= x < y < n && (x < a || (x == a && y < i)) ==> costo_spec(
                        m,
                        intercambio(self.solucion_actual@, x, y),
                    ) >= self.peso_solucion_actual,
            decreases self.peso_solucion_actual, n - a, (if i <= n {
                n - i
            } else {
                0int
            }),
        {
            if i < n {
                let c = self.peso_solucion_actual;
                let ghost t_antes = self.solucion_actual@;
                proof {
                    lemma_costo_total_cota(m, self.solucion_actual@);
                }
                let d = self.intercambiar_ciudades(a, i);
                proof {
                    crate::db::lemma_intercambio_multiset(t_antes, a as int, i as int);
                    lemma_costo_total_cota(m, self.solucion_actual@);
                }
                if d < c {
                    self.peso_solucion_actual = d;
                    a = 0;
                    i = 1;
                } else {
                    proof {
                        lemma_intercambio_involutivo(t_antes, a as int, i as int);
                    }
                    let _ = self.intercambiar_ciudades(a, i);
                    proof {
                        assert forall|x: int, y: int|
                            0 <= x < y < n && (x < a || (x == a && y < i + 1)) implies costo_spec(
                            m,
                            intercambio(self.solucion_actual@, x, y),
                        ) >= self.peso_solucion_actual by {
                            if x == a && y == i {
                                assert(costo_spec(m, intercambio(self.solucion_actual@, x, y))
                                    == d);
                            }
                        }
                    }
                    i = i + 1;
                }
            } else {
                a = a + 1;
                i = a + 1;
            }
        }
    }
}

/// Applying the swap of the same two positions twice restores both
/// the tour and its cost exactly.
pub proof fn lemma_intercambio_doble_restaura(m: GraficaModelo, t: Seq<i64>, a: int, b: int)
    requires
        0 <= a < t.len(),
        0 <= b < t.len(),
    ensures
        intercambio(intercambio(t, a, b), a, b) == t,
        costo_spec(m, intercambio(intercambio(t, a, b), a, b)) == costo_spec(m, t),
{
    lemma_intercambio_involutivo(t, a, b);
}

} // verus!
