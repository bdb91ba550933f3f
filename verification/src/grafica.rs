//! The weighted graph over the city store. `peso` returns the measured
//! distance of a pair when one exists; otherwise the pair's registered
//! great-circle estimate scaled by the normalizing constant, memoized
//! in a cache whose every filled slot equals that same value — so what
//! `peso` returns is a function of the graph's model alone, never of
//! the cache's state.

use vstd::prelude::*;

use crate::db::CityDB;
use crate::db::DISTANCIA_MAX;
use crate::db::NUM_CIUDADES;
use crate::db::SIN_MEDIR;
use crate::db::entrada;
use crate::db::id_valido;
use crate::db::lemma_entrada_actualiza;
use crate::db::relleno;
use crate::db::tabla_acotada;
use crate::db::tabla_simetrica;

verus! {

/// Exclusive bound on the normalizing constant: the sum of at most
/// `NUM_CIUDADES` distances, each below `DISTANCIA_MAX`.
pub const NORMALIZADOR_MAX: u64 = 1093 * 0x8000_0000;

/// Sentinel in the memoization cache: not computed yet.
pub const SIN_CALCULAR: u128 = u128::MAX;

/// Exclusive bound on every edge weight: an estimate below
/// `DISTANCIA_MAX` times a normalizer below `NORMALIZADOR_MAX`.
pub const PESO_COTA: i128 = 0x8000_0000 * (1093 * 0x8000_0000);

/// The mathematical model of the graph: the measured table, the
/// estimate table and the normalizer. What `peso` returns is a
/// function of these three alone.
pub ghost struct GraficaModelo {
    pub tabla: Seq<u64>,
    pub est: Seq<u64>,
    pub norm: u64,
}

pub open spec fn estimaciones_validas(t: Seq<u64>) -> bool {
    forall|u: int, v: int|
        id_valido(u) && id_valido(v) ==> #[trigger] entrada(t, u, v) < DISTANCIA_MAX
}

pub open spec fn estimaciones_simetricas(t: Seq<u64>) -> bool {
    forall|u: int, v: int|
        id_valido(u) && id_valido(v) ==> #[trigger] entrada(t, u, v) == entrada(t, v, u)
}

pub open spec fn modelo_wf(m: GraficaModelo) -> bool {
    &&& m.tabla.len() == NUM_CIUDADES * NUM_CIUDADES
    &&& m.est.len() == NUM_CIUDADES * NUM_CIUDADES
    &&& tabla_simetrica(m.tabla)
    &&& tabla_acotada(m.tabla)
    &&& estimaciones_simetricas(m.est)
    &&& estimaciones_validas(m.est)
    &&& m.norm < NORMALIZADOR_MAX
}

/// The weight of the edge `(u, v)`: the measured distance when one
/// exists, otherwise the great-circle estimate scaled by the
/// normalizer.
pub open spec fn peso_spec(m: GraficaModelo, u: int, v: int) -> int {
    if entrada(m.tabla, u, v) != SIN_MEDIR {
        entrada(m.tabla, u, v) as int
    } else {
        entrada(m.est, u, v) as int * m.norm as int
    }
}

/// Every weight of a well-formed graph lies in `[0, PESO_COTA)`.
pub proof fn lemma_peso_cota(m: GraficaModelo, u: int, v: int)
    requires
        modelo_wf(m),
        id_valido(u),
        id_valido(v),
    ensures
        0 <= peso_spec(m, u, v) < PESO_COTA,
{
    if entrada(m.tabla, u, v) != SIN_MEDIR {
        assert(entrada(m.tabla, u, v) < DISTANCIA_MAX);
    } else {
        let e = entrada(m.est, u, v) as int;
        let n = m.norm as int;
        assert(0 <= e * n < 0x8000_0000 * (1093 * 0x8000_0000)) by (nonlinear_arith)
            requires
                0 <= e < 0x8000_0000,
                0 <= n < 1093 * 0x8000_0000,
        ;
    }
}

/// The weight of a pair equals the weight of the reversed pair,
/// whatever stands in the cache.
pub proof fn lemma_peso_simetrico(m: GraficaModelo, u: int, v: int)
    requires
        modelo_wf(m),
        id_valido(u),
        id_valido(v),
    ensures
        peso_spec(m, u, v) == peso_spec(m, v, u),
{
    assert(entrada(m.tabla, u, v) == entrada(m.tabla, v, u));
    assert(entrada(m.est, u, v) == entrada(m.est, v, u));
}

/// The graph: the city store, the registered great-circle estimates,
/// the normalizing constant, and the weight memoization cache.
#[derive(Clone, Debug)]
pub struct Grafica {
    pub db: CityDB,
    pub estimaciones: Vec<u64>,
    pub normalizador: u64,
    pub cache: Vec<u128>,
}

impl Grafica {
    /// The cache-independent model of the graph.
    pub open spec fn modelo(&self) -> GraficaModelo {
        GraficaModelo { tabla: self.db.data@, est: self.estimaciones@, norm: self.normalizador }
    }

    pub open spec fn wf(&self) -> bool {
        &&& self.db.wf()
        &&& modelo_wf(self.modelo())
        &&& self.cache@.len() == NUM_CIUDADES * NUM_CIUDADES
        &&& forall|u: int, v: int|
            id_valido(u) && id_valido(v) ==> (#[trigger] entrada(self.cache@, u, v))
                == SIN_CALCULAR || entrada(self.cache@, u, v) as int == peso_spec(
                self.modelo(),
                u,
                v,
            )
    }

    /// A graph over the given store, with no estimates registered and
    /// the normalizer not yet fixed.
    pub fn new(base: CityDB) -> (g: Grafica)
        requires
            base.wf(),
        ensures
            g.wf(),
            g.db == base,
            g.modelo().tabla == base.data@,
            g.modelo().norm == 0,
            forall|u: int, v: int|
                id_valido(u) && id_valido(v) ==> #[trigger] entrada(g.modelo().est, u, v) == 0,
    {
        let g = Grafica {
            db: base,
            estimaciones: relleno(0u64, NUM_CIUDADES * NUM_CIUDADES),
            normalizador: 0,
            cache: relleno(SIN_CALCULAR, NUM_CIUDADES * NUM_CIUDADES),
        };
        proof {
            assert forall|u: int, v: int| id_valido(u) && id_valido(v) implies #[trigger] entrada(
                g.estimaciones@,
                u,
                v,
            ) == 0 && entrada(g.cache@, u, v) == SIN_CALCULAR by {
                assert(0 <= u * (NUM_CIUDADES as int) + v < g.estimaciones@.len())
                    by (nonlinear_arith)
                    requires
                        0 <= u < 1093,
                        0 <= v < 1093,
                        g.estimaciones@.len() == 1093 * 1093,
                ;
            }
        }
        g
    }

    /// Fixes the normalizing constant that scales every fallback
    /// weight, and empties the cache, whose old entries spoke of the
    /// old constant.
    pub fn fijar_normalizador(&mut self, normalizador: u64)
        requires
            old(self).wf(),
            normalizador < NORMALIZADOR_MAX,
        ensures
            final(self).wf(),
            final(self).db == old(self).db,
            final(self).modelo().tabla == old(self).modelo().tabla,
            final(self).modelo().est == old(self).modelo().est,
            final(self).modelo().norm == normalizador,
    {
        self.normalizador = normalizador;
        self.cache = relleno(SIN_CALCULAR, NUM_CIUDADES * NUM_CIUDADES);
        proof {
            assert forall|u: int, v: int| id_valido(u) && id_valido(v) implies #[trigger] entrada(
                self.cache@,
                u,
                v,
            ) == SIN_CALCULAR by {
                assert(0 <= u * (NUM_CIUDADES as int) + v < self.cache@.len())
                    by (nonlinear_arith)
                    requires
                        0 <= u < 1093,
                        0 <= v < 1093,
                        self.cache@.len() == 1093 * 1093,
                ;
            }
        }
    }

    /// Registers the great-circle estimate of a pair, in both
    /// directions, and clears the pair's cache slots, which spoke of
    /// the old estimate.
    pub fn registrar_estimacion(&mut self, u: i64, v: i64, d: u64)
        requires
            old(self).wf(),
            id_valido(u as int),
            id_valido(v as int),
            d < DISTANCIA_MAX,
        ensures
            final(self).wf(),
            final(self).db == old(self).db,
            final(self).modelo().tabla == old(self).modelo().tabla,
            final(self).modelo().norm == old(self).modelo().norm,
            final(self).modelo().est == old(self).modelo().est.update(
                u as int * (NUM_CIUDADES as int) + v as int,
                d,
            ).update(v as int * (NUM_CIUDADES as int) + u as int, d),
            forall|p: int, q: int|
                id_valido(p) && id_valido(q) && !(p == u as int && q == v as int) && !(p == v as int
                    && q == u as int) ==> #[trigger] entrada(final(self).modelo().est, p, q)
                    == entrada(old(self).modelo().est, p, q),
            entrada(final(self).modelo().est, u as int, v as int) == d,
            entrada(final(self).modelo().est, v as int, u as int) == d,
    {
        let ghost est0 = self.estimaciones@;
        let ghost cache0 = self.cache@;
        let ghost m0 = self.modelo();
        let idx_uv = indice_tabla(u, v);
        let idx_vu = indice_tabla(v, u);
        self.estimaciones.set(idx_uv, d);
        self.estimaciones.set(idx_vu, d);
        self.cache.set(idx_uv, SIN_CALCULAR);
        self.cache.set(idx_vu, SIN_CALCULAR);
        proof {
            let ghost medio = est0.update(u as int * (NUM_CIUDADES as int) + v as int, d);
            let ghost cmedio = cache0.update(
                u as int * (NUM_CIUDADES as int) + v as int,
                SIN_CALCULAR,
            );
            let ghost m1 = self.modelo();
            assert forall|p: int, q: int| id_valido(p) && id_valido(q) implies {
                &&& #[trigger] entrada(m1.est, p, q) == if (p == u as int && q == v as int) || (p
                    == v as int && q == u as int) {
                    d
                } else {
                    entrada(est0, p, q)
                }
                &&& entrada(self.cache@, p, q) == if (p == u as int && q == v as int) || (p
                    == v as int && q == u as int) {
                    SIN_CALCULAR
                } else {
                    entrada(cache0, p, q)
                }
            } by {
                lemma_entrada_actualiza(est0, u as int, v as int, d, p, q);
                lemma_entrada_actualiza(medio, v as int, u as int, d, p, q);
                lemma_entrada_actualiza(cache0, u as int, v as int, SIN_CALCULAR, p, q);
                lemma_entrada_actualiza(cmedio, v as int, u as int, SIN_CALCULAR, p, q);
            }
            assert forall|p: int, q: int| id_valido(p) && id_valido(q) implies (#[trigger] entrada(
                self.cache@,
                p,
                q,
            )) == SIN_CALCULAR || entrada(self.cache@, p, q) as int == peso_spec(m1, p, q) by {
                if entrada(self.cache@, p, q) != SIN_CALCULAR {
                    assert(entrada(self.cache@, p, q) == entrada(cache0, p, q));
                    assert(entrada(m1.est, p, q) == entrada(est0, p, q));
                    assert(peso_spec(m1, p, q) == peso_spec(m0, p, q));
                }
            }
        }
    }

    /// The registered great-circle estimate of a pair.
    pub fn distancia_natural(&self, u: i64, v: i64) -> (r: u64)
        requires
            self.wf(),
            id_valido(u as int),
            id_valido(v as int),
        ensures
            r == entrada(self.modelo().est, u as int, v as int),
    {
        let idx = indice_tabla(u, v);
        self.estimaciones[idx]
    }

    /// The weight of the edge `(u, v)`. The result equals
    /// `peso_spec` of the graph's model, which this call never
    /// changes: a second call with the same pair returns the same
    /// value, and the cache fill is invisible to every caller.
    pub fn peso(&mut self, u: i64, v: i64) -> (r: u128)
        requires
            old(self).wf(),
            id_valido(u as int),
            id_valido(v as int),
        ensures
            final(self).wf(),
            final(self).db == old(self).db,
            final(self).modelo() == old(self).modelo(),
            r as int == peso_spec(old(self).modelo(), u as int, v as int),
            r < PESO_COTA as u128,
    {
        proof {
            lemma_peso_cota(self.modelo(), u as int, v as int);
        }
        let idx = indice_tabla(u, v);
        let medida = self.db.data[idx];
        if medida != SIN_MEDIR {
            return medida as u128;
        }
        let c = self.cache[idx];
        proof {
            assert(entrada(self.cache@, u as int, v as int) == c);
        }
        if c != SIN_CALCULAR {
            return c;
        }
        let e = self.estimaciones[idx];
        let valor: u128 = (e as u128) * (self.normalizador as u128);
        proof {
            assert((e as u128) * (self.normalizador as u128) < (PESO_COTA as u128))
                by (nonlinear_arith)
                requires
                    e < 0x8000_0000u128,
                    (self.normalizador as u128) < 1093 * 0x8000_0000u128,
                    PESO_COTA == 0x8000_0000 * (1093 * 0x8000_0000),
            ;
        }
        let ghost cache0 = self.cache@;
        let ghost m0 = self.modelo();
        let idx_vu = indice_tabla(v, u);
        self.cache.set(idx, valor);
        self.cache.set(idx_vu, valor);
        proof {
            lemma_peso_simetrico(m0, u as int, v as int);
            let ghost cmedio = cache0.update(
                u as int * (NUM_CIUDADES as int) + v as int,
                valor,
            );
            assert forall|p: int, q: int| id_valido(p) && id_valido(q) implies (#[trigger] entrada(
                self.cache@,
                p,
                q,
            )) == SIN_CALCULAR || entrada(self.cache@, p, q) as int == peso_spec(m0, p, q) by {
                lemma_entrada_actualiza(cache0, u as int, v as int, valor, p, q);
                lemma_entrada_actualiza(cmedio, v as int, u as int, valor, p, q);
            }
        }
        valor
    }
}

/// The flat index of cell `(u, v)`.
fn indice_tabla(u: i64, v: i64) -> (r: usize)
    requires
        id_valido(u as int),
        id_valido(v as int),
    ensures
        r as int == u as int * (NUM_CIUDADES as int) + v as int,
        r < NUM_CIUDADES * NUM_CIUDADES,
{
    proof {
        assert(0 <= (u as int) * (NUM_CIUDADES as int) + (v as int) < 1093 * 1093)
            by (nonlinear_arith)
            requires
                0 <= u < 1093,
                0 <= v < 1093,
        ;
    }
    (u * (NUM_CIUDADES as i64) + v) as usize
}

} // verus!
