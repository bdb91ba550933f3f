//! The city store: per-city coordinates, the flat pairwise-distance
//! table, the working-subset marks, and the ascending list of measured
//! distances inside the subset. Loading from the external dataset is a
//! collaborator concern: it hands this module plain records.

use vstd::prelude::*;

use crate::ErrorTsp;

verus! {

/// Side of the square distance table: one slot per city id.
pub const NUM_CIUDADES: usize = 1093;

/// Sentinel in the distance table: the pair has no measured distance.
pub const SIN_MEDIR: u64 = u64::MAX;

/// Exclusive bound on every measured distance and geodesic estimate.
pub const DISTANCIA_MAX: u64 = 0x8000_0000;

pub open spec fn id_valido(u: int) -> bool {
    0 <= u < NUM_CIUDADES as int
}

/// Cell `(u, v)` of a flat square table of side `NUM_CIUDADES`.
pub open spec fn entrada<T>(t: Seq<T>, u: int, v: int) -> T {
    t[u * (NUM_CIUDADES as int) + v]
}

pub open spec fn tabla_simetrica(t: Seq<u64>) -> bool {
    forall|u: int, v: int|
        id_valido(u) && id_valido(v) ==> #[trigger] entrada(t, u, v) == entrada(t, v, u)
}

pub open spec fn tabla_acotada(t: Seq<u64>) -> bool {
    forall|u: int, v: int|
        id_valido(u) && id_valido(v) ==> #[trigger] entrada(t, u, v) == SIN_MEDIR || entrada(
            t,
            u,
            v,
        ) < DISTANCIA_MAX
}

pub open spec fn ordenada(s: Seq<u64>) -> bool {
    forall|i: int, j: int| #![trigger s[i], s[j]] 0 <= i <= j < s.len() ==> s[i] <= s[j]
}

pub open spec fn lista_acotada(s: Seq<u64>) -> bool {
    forall|i: int| 0 <= i < s.len() ==> #[trigger] s[i] < DISTANCIA_MAX
}

/// Two valid pairs index the same cell only if they are the same pair.
pub proof fn lemma_indice_inyectivo(u1: int, v1: int, u2: int, v2: int)
    requires
        id_valido(u1),
        id_valido(v1),
        id_valido(u2),
        id_valido(v2),
        u1 * (NUM_CIUDADES as int) + v1 == u2 * (NUM_CIUDADES as int) + v2,
    ensures
        u1 == u2,
        v1 == v2,
{
    assert(u1 == u2 && v1 == v2) by (nonlinear_arith)
        requires
            0 <= u1 < 1093,
            0 <= v1 < 1093,
            0 <= u2 < 1093,
            0 <= v2 < 1093,
            u1 * 1093 + v1 == u2 * 1093 + v2,
    ;
}

/// What a single write to cell `(u, v)` does to every cell of the table.
pub proof fn lemma_entrada_actualiza<T>(t: Seq<T>, u: int, v: int, d: T, p: int, q: int)
    requires
        t.len() == NUM_CIUDADES * NUM_CIUDADES,
        id_valido(u),
        id_valido(v),
        id_valido(p),
        id_valido(q),
    ensures
        entrada(t.update(u * (NUM_CIUDADES as int) + v, d), p, q) == if p == u && q == v {
            d
        } else {
            entrada(t, p, q)
        },
{
    assert(0 <= u * (NUM_CIUDADES as int) + v < t.len()) by (nonlinear_arith)
        requires
            0 <= u < 1093,
            0 <= v < 1093,
            t.len() == 1093 * 1093,
    ;
    assert(0 <= p * (NUM_CIUDADES as int) + q < t.len()) by (nonlinear_arith)
        requires
            0 <= p < 1093,
            0 <= q < 1093,
            t.len() == 1093 * 1093,
    ;
    if p == u && q == v {
    } else {
        if p * (NUM_CIUDADES as int) + q == u * (NUM_CIUDADES as int) + v {
            lemma_indice_inyectivo(p, q, u, v);
            assert(false);
        }
    }
}

/// A vector of `n` copies of `valor`.
pub fn relleno<T: Copy>(valor: T, n: usize) -> (v: Vec<T>)
    ensures
        v@.len() == n,
        forall|k: int| 0 <= k < n ==> v@[k] == valor,
{
    let mut v: Vec<T> = Vec::new();
    let mut i: usize = 0;
    while i < n
        invariant
            i <= n,
            v@.len() == i,
            forall|k: int| 0 <= k < i ==> v@[k] == valor,
        decreases n - i,
    {
        v.push(valor);
        i = i + 1;
    }
    v
}

/// Swapping two positions of a sequence keeps its multiset of values.
pub proof fn lemma_intercambio_multiset<A>(s: Seq<A>, a: int, b: int)
    requires
        0 <= a < s.len(),
        0 <= b < s.len(),
    ensures
        s.update(a, s[b]).update(b, s[a]).to_multiset() == s.to_multiset(),
{
    broadcast use vstd::seq_lib::group_to_multiset_ensures;
    broadcast use vstd::multiset::group_multiset_axioms;

    let s1 = s.update(a, s[b]);
    let s2 = s1.update(b, s[a]);
    if a == b {
        assert(s2 =~= s);
        assert(s2.to_multiset() =~= s.to_multiset());
    } else {
        assert(s.contains(s[a]));
        assert(s.to_multiset().count(s[a]) > 0);
        assert(s1[b] == s[b]);
        assert(s1.to_multiset() == s.to_multiset().insert(s[b]).remove(s[a]));
        assert(s2.to_multiset() == s1.to_multiset().insert(s[a]).remove(s[b]));
        assert(s2.to_multiset() =~= s.to_multiset());
    }
}

/// Sequences with the same multiset of values satisfy the same bound.
pub proof fn lemma_multiset_misma_cota(s1: Seq<u64>, s2: Seq<u64>)
    requires
        s1.to_multiset() == s2.to_multiset(),
        lista_acotada(s1),
    ensures
        lista_acotada(s2),
{
    broadcast use vstd::seq_lib::group_to_multiset_ensures;

    assert forall|i: int| 0 <= i < s2.len() implies #[trigger] s2[i] < DISTANCIA_MAX by {
        assert(s2.contains(s2[i]));
        assert(s2.to_multiset().count(s2[i]) > 0);
        assert(s1.contains(s2[i]));
    }
}

/// Sorts a list of distances ascending, keeping its multiset of values.
pub fn ordenar(lista: &mut Vec<u64>)
    ensures
        ordenada(final(lista)@),
        final(lista)@.to_multiset() == old(lista)@.to_multiset(),
        final(lista)@.len() == old(lista)@.len(),
{
    if lista.len() <= 1 {
        return ;
    }
    let mut i: usize = 1;
    while i < lista.len()
        invariant
            1 <= i <= lista@.len(),
            lista@.len() == old(lista)@.len(),
            lista@.to_multiset() == old(lista)@.to_multiset(),
            ordenada(lista@.take(i as int)),
        decreases lista@.len() - i,
    {
        proof {
            assert forall|k1: int, k2: int| #![trigger lista@[k1], lista@[k2]]
                0 <= k1 < k2 <= i && k2 != i implies lista@[k1] <= lista@[k2] by {
                assert(lista@.take(i as int)[k1] == lista@[k1]);
                assert(lista@.take(i as int)[k2] == lista@[k2]);
            }
        }
        let mut j: usize = i;
        while j > 0 && lista[j - 1] > lista[j]
            invariant
                0 <= j <= i < lista@.len(),
                lista@.len() == old(lista)@.len(),
                lista@.to_multiset() == old(lista)@.to_multiset(),
                forall|k1: int, k2: int| #![trigger lista@[k1], lista@[k2]]
                    0 <= k1 < k2 <= i && k2 != j ==> lista@[k1] <= lista@[k2],
            decreases j,
        {
            let ghost antes = lista@;
            let x = lista[j - 1];
            let y = lista[j];
            lista.set(j - 1, y);
            lista.set(j, x);
            proof {
                lemma_intercambio_multiset(antes, j - 1, j as int);
            }
            j = j - 1;
        }
        proof {
            assert forall|k1: int, k2: int| #![trigger lista@.take(i + 1)[k1], lista@.take(i + 1)[k2]]
                0 <= k1 <= k2 < i + 1 implies lista@.take(i + 1)[k1] <= lista@.take(i + 1)[k2] by {
                if k1 < k2 {
                    if k2 != j {
                        assert(lista@[k1] <= lista@[k2]);
                    } else {
                        assert(k1 <= j - 1);
                        assert(lista@[j - 1] <= lista@[j as int]);
                        if k1 < j - 1 {
                            assert(lista@[k1] <= lista@[j - 1]);
                        }
                    }
                }
            }
        }
        i = i + 1;
    }
    assert(lista@.take(lista@.len() as int) =~= lista@);
}

/// An edge record of the dataset: a measured distance between two
/// cities, fixed-point, strictly below `DISTANCIA_MAX`.
#[derive(Clone, Copy, Debug, PartialEq, Eq, Structural)]
pub struct Conexion {
    pub id_city_1: i64,
    pub id_city_2: i64,
    pub distance: u64,
}

/// A city record of the dataset: id and coordinates, both in
/// fixed-point microdegrees.
#[derive(Clone, Copy, Debug, PartialEq, Eq, Structural)]
pub struct Ciudad {
    pub id: i64,
    pub latitud: i64,
    pub longitud: i64,
}

pub open spec fn conexion_valida(c: Conexion) -> bool {
    id_valido(c.id_city_1 as int) && id_valido(c.id_city_2 as int) && c.distance < DISTANCIA_MAX
}

pub open spec fn ciudad_valida(c: Ciudad) -> bool {
    id_valido(c.id as int)
}

/// One edge record written into the table, in both directions.
pub open spec fn aplica_conexion(t: Seq<u64>, c: Conexion) -> Seq<u64> {
    t.update(c.id_city_1 as int * (NUM_CIUDADES as int) + c.id_city_2 as int, c.distance).update(
        c.id_city_2 as int * (NUM_CIUDADES as int) + c.id_city_1 as int,
        c.distance,
    )
}

/// The table after writing the records of `cs` from position `i` on.
pub open spec fn tabla_desde(t: Seq<u64>, cs: Seq<Conexion>, i: int) -> Seq<u64>
    decreases cs.len() - i,
{
    if i < 0 || i >= cs.len() {
        t
    } else {
        tabla_desde(aplica_conexion(t, cs[i]), cs, i + 1)
    }
}

/// The coordinate list after writing the records of `cs` from `i` on.
pub open spec fn coordenadas_desde(cd: Seq<(i64, i64)>, cs: Seq<Ciudad>, i: int) -> Seq<(i64, i64)>
    decreases cs.len() - i,
{
    if i < 0 || i >= cs.len() {
        cd
    } else {
        coordenadas_desde(cd.update(cs[i].id as int, (cs[i].latitud, cs[i].longitud)), cs, i + 1)
    }
}

/// The subset-distance list after the records of `cs` from `i` on: a
/// record's distance is appended when both endpoints carry the mark.
pub open spec fn seleccion_desde(l: Seq<u64>, cs: Seq<Conexion>, marcas: Seq<i32>, i: int) -> Seq<
    u64,
>
    decreases cs.len() - i,
{
    if i < 0 || i >= cs.len() {
        l
    } else {
        seleccion_desde(
            if marcas[cs[i].id_city_1 as int] == 1 && marcas[cs[i].id_city_2 as int] == 1 {
                l.push(cs[i].distance)
            } else {
                l
            },
            cs,
            marcas,
            i + 1,
        )
    }
}

/// The city store. `data` is the measured-distance table (symmetric,
/// `SIN_MEDIR` where no measurement exists), `coordenadas` the
/// per-city coordinates, `distancias_tsp` the ascending list of
/// measured distances whose two endpoints lie in the working subset,
/// and `tsp` the subset marks (1 for a city of the working subset).
#[derive(Clone, Debug)]
pub struct CityDB {
    pub data: Vec<u64>,
    pub coordenadas: Vec<(i64, i64)>,
    pub distancias_tsp: Vec<u64>,
    pub tsp: Vec<i32>,
}

impl CityDB {
    pub open spec fn wf(&self) -> bool {
        &&& self.data@.len() == NUM_CIUDADES * NUM_CIUDADES
        &&& self.coordenadas@.len() == NUM_CIUDADES
        &&& self.tsp@.len() == NUM_CIUDADES
        &&& tabla_simetrica(self.data@)
        &&& tabla_acotada(self.data@)
        &&& ordenada(self.distancias_tsp@)
        &&& lista_acotada(self.distancias_tsp@)
    }

    /// Marks of the working subset: slot `k` is 1 exactly when `k` is
    /// one of the given city ids.
    fn cargar_tsp(indices_tsp: &Vec<i64>) -> (r: Result<Vec<i32>, ErrorTsp>)
        ensures
            r is Ok <==> (forall|i: int|
                0 <= i < indices_tsp@.len() ==> id_valido((#[trigger] indices_tsp@[i]) as int)),
            r is Err ==> r == Err::<Vec<i32>, ErrorTsp>(ErrorTsp::DatosInvalidos),
            r is Ok ==> {
                let t = r->Ok_0;
                &&& t@.len() == NUM_CIUDADES
                &&& forall|k: int|
                    0 <= k < NUM_CIUDADES ==> ((#[trigger] t@[k]) == 1 <==> indices_tsp@.contains(
                        k as i64,
                    ))
            },
    {
        let mut i: usize = 0;
        while i < indices_tsp.len()
            invariant
                i <= indices_tsp@.len(),
                forall|k: int| 0 <= k < i ==> id_valido((#[trigger] indices_tsp@[k]) as int),
            decreases indices_tsp@.len() - i,
        {
            let e = indices_tsp[i];
            if e < 0 || e >= NUM_CIUDADES as i64 {
                return Err(ErrorTsp::DatosInvalidos);
            }
            i = i + 1;
        }
        let mut t: Vec<i32> = relleno(0i32, NUM_CIUDADES);
        let mut j: usize = 0;
        while j < indices_tsp.len()
            invariant
                j <= indices_tsp@.len(),
                t@.len() == NUM_CIUDADES,
                forall|k: int| 0 <= k < indices_tsp@.len() ==> id_valido((#[trigger] indices_tsp@[k]) as int),
                forall|k: int|
                    0 <= k < NUM_CIUDADES ==> ((#[trigger] t@[k]) == 1
                        <==> indices_tsp@.take(j as int).contains(k as i64)),
            decreases indices_tsp@.len() - j,
        {
            let e = indices_tsp[j];
            t.set(e as usize, 1);
            proof {
                assert(indices_tsp@.take(j + 1) =~= indices_tsp@.take(j as int).push(
                    indices_tsp@[j as int],
                ));
                assert(indices_tsp@.take(j + 1)[j as int] == e);
                assert(indices_tsp@.take(j + 1).contains(e));
                assert forall|k: int| 0 <= k < NUM_CIUDADES implies ((#[trigger] t@[k]) == 1
                    <==> indices_tsp@.take(j + 1).contains(k as i64)) by {
                    if indices_tsp@.take(j + 1).contains(k as i64) {
                        let w = choose|w: int|
                            0 <= w < j + 1 && #[trigger] indices_tsp@.take(j + 1)[w] == k as i64;
                        if w < j {
                            assert(indices_tsp@.take(j as int).contains(k as i64));
                        }
                    }
                    if t@[k] == 1 && k != e as int {
                        assert(indices_tsp@.take(j as int).contains(k as i64));
                        let w = choose|w: int|
                            0 <= w < j && #[trigger] indices_tsp@.take(j as int)[w] == k as i64;
                        assert(indices_tsp@.take(j + 1)[w] == k as i64);
                    }
                }
            }
            j = j + 1;
        }
        proof {
            assert(indices_tsp@.take(indices_tsp@.len() as int) =~= indices_tsp@);
        }
        Ok(t)
    }

    /// A fresh store for the given working subset: every pair
    /// unmeasured, every coordinate zero, no distances recorded.
    pub fn new(indices_tsp: &Vec<i64>) -> (r: Result<CityDB, ErrorTsp>)
        ensures
            r is Ok <==> (forall|i: int|
                0 <= i < indices_tsp@.len() ==> id_valido((#[trigger] indices_tsp@[i]) as int)),
            r is Err ==> r == Err::<CityDB, ErrorTsp>(ErrorTsp::DatosInvalidos),
            r is Ok ==> {
                let db = r->Ok_0;
                &&& db.wf()
                &&& forall|u: int, v: int|
                    id_valido(u) && id_valido(v) ==> #[trigger] entrada(db.data@, u, v)
                        == SIN_MEDIR
                &&& forall|k: int| 0 <= k < NUM_CIUDADES ==> #[trigger] db.coordenadas@[k] == (
                    0i64,
                    0i64,
                )
                &&& db.distancias_tsp@ =~= Seq::<u64>::empty()
                &&& forall|k: int|
                    0 <= k < NUM_CIUDADES ==> ((#[trigger] db.tsp@[k]) == 1
                        <==> indices_tsp@.contains(k as i64))
            },
    {
        let tsp = match Self::cargar_tsp(indices_tsp) {
            Ok(t) => t,
            Err(e) => {
                return Err(e);
            },
        };
        let data = relleno(SIN_MEDIR, NUM_CIUDADES * NUM_CIUDADES);
        let coordenadas = relleno((0i64, 0i64), NUM_CIUDADES);
        let db = CityDB { data, coordenadas, distancias_tsp: Vec::new(), tsp };
        proof {
            assert forall|u: int, v: int| id_valido(u) && id_valido(v) implies #[trigger] entrada(
                db.data@,
                u,
                v,
            ) == SIN_MEDIR by {
                assert(0 <= u * (NUM_CIUDADES as int) + v < db.data@.len()) by (nonlinear_arith)
                    requires
                        0 <= u < 1093,
                        0 <= v < 1093,
                        db.data@.len() == 1093 * 1093,
                ;
            }
        }
        Ok(db)
    }

    /// The coordinates of a city, as loaded from the dataset.
    pub fn get_latitude_longitude(&self, u: i64) -> (r: (i64, i64))
        requires
            self.wf(),
            id_valido(u as int),
        ensures
            r == self.coordenadas@[u as int],
    {
        self.coordenadas[u as usize]
    }

    /// Writes the dataset records into the store: each edge record
    /// lands in the table symmetrically; its distance joins the
    /// subset list when both endpoints carry the subset mark; each
    /// city record sets its coordinates; the subset list ends sorted
    /// ascending. Rejects the whole load, leaving the store as it
    /// was, when any record holds an id out of range or a distance at
    /// or over `DISTANCIA_MAX`.
    pub fn cargar_datos(&mut self, conexiones: &Vec<Conexion>, ciudades: &Vec<Ciudad>) -> (r:
        Result<(), ErrorTsp>)
        requires
            old(self).wf(),
        ensures
            final(self).wf(),
            r is Ok <==> ((forall|i: int|
                0 <= i < conexiones@.len() ==> conexion_valida(#[trigger] conexiones@[i]))
                && (forall|i: int|
                0 <= i < ciudades@.len() ==> ciudad_valida(#[trigger] ciudades@[i]))),
            r is Err ==> r == Err::<(), ErrorTsp>(ErrorTsp::DatosInvalidos) && *final(self)
                == *old(self),
            r is Ok ==> {
                &&& final(self).data@ == tabla_desde(old(self).data@, conexiones@, 0)
                &&& final(self).coordenadas@ == coordenadas_desde(
                    old(self).coordenadas@,
                    ciudades@,
                    0,
                )
                &&& final(self).distancias_tsp@.to_multiset() == seleccion_desde(
                    old(self).distancias_tsp@,
                    conexiones@,
                    old(self).tsp@,
                    0,
                ).to_multiset()
                &&& final(self).tsp@ == old(self).tsp@
            },
    {
        let mut i: usize = 0;
        while i < conexiones.len()
            invariant
                i <= conexiones@.len(),
                forall|k: int| 0 <= k < i ==> conexion_valida(#[trigger] conexiones@[k]),
                *self == *old(self),
                old(self).wf(),
            decreases conexiones@.len() - i,
        {
            let c = conexiones[i];
            if c.id_city_1 < 0 || c.id_city_1 >= NUM_CIUDADES as i64 || c.id_city_2 < 0
                || c.id_city_2 >= NUM_CIUDADES as i64 || c.distance >= DISTANCIA_MAX {
                return Err(ErrorTsp::DatosInvalidos);
            }
            i = i + 1;
        }
        let mut j: usize = 0;
        while j < ciudades.len()
            invariant
                j <= ciudades@.len(),
                forall|k: int| 0 <= k < j ==> ciudad_valida(#[trigger] ciudades@[k]),
                *self == *old(self),
                old(self).wf(),
            decreases ciudades@.len() - j,
        {
            let c = ciudades[j];
            if c.id < 0 || c.id >= NUM_CIUDADES as i64 {
                return Err(ErrorTsp::DatosInvalidos);
            }
            j = j + 1;
        }
        let ghost datos0 = self.data@;
        let ghost lista0 = self.distancias_tsp@;
        let mut k: usize = 0;
        while k < conexiones.len()
            invariant
                k <= conexiones@.len(),
                forall|w: int| 0 <= w < conexiones@.len() ==> conexion_valida(#[trigger] conexiones@[w]),
                self.data@.len() == NUM_CIUDADES * NUM_CIUDADES,
                tabla_simetrica(self.data@),
                tabla_acotada(self.data@),
                lista_acotada(self.distancias_tsp@),
                self.tsp@ == old(self).tsp@,
                self.coordenadas@ == old(self).coordenadas@,
                self.tsp@.len() == NUM_CIUDADES,
                tabla_desde(datos0, conexiones@, 0) == tabla_desde(self.data@, conexiones@, k as int),
                seleccion_desde(lista0, conexiones@, self.tsp@, 0) == seleccion_desde(
                    self.distancias_tsp@,
                    conexiones@,
                    self.tsp@,
                    k as int,
                ),
            decreases conexiones@.len() - k,
        {
            let c = conexiones[k];
            let a = c.id_city_1;
            let b = c.id_city_2;
            let ghost antes = self.data@;
            let idx_ab = (a * (NUM_CIUDADES as i64) + b) as usize;
            let idx_ba = (b * (NUM_CIUDADES as i64) + a) as usize;
            proof {
                assert(0 <= (a as int) * (NUM_CIUDADES as int) + (b as int) < antes.len())
                    by (nonlinear_arith)
                    requires
                        0 <= a < 1093,
                        0 <= b < 1093,
                        antes.len() == 1093 * 1093,
                ;
                assert(0 <= (b as int) * (NUM_CIUDADES as int) + (a as int) < antes.len())
                    by (nonlinear_arith)
                    requires
                        0 <= a < 1093,
                        0 <= b < 1093,
                        antes.len() == 1093 * 1093,
                ;
            }
            self.data.set(idx_ab, c.distance);
            self.data.set(idx_ba, c.distance);
            proof {
                assert(self.data@ == aplica_conexion(antes, c));
                let medio = antes.update(
                    a as int * (NUM_CIUDADES as int) + b as int,
                    c.distance,
                );
                assert forall|p: int, q: int| id_valido(p) && id_valido(q) implies #[trigger] entrada(
                    self.data@,
                    p,
                    q,
                ) == entrada(self.data@, q, p) && (entrada(self.data@, p, q) == SIN_MEDIR
                    || entrada(self.data@, p, q) < DISTANCIA_MAX) by {
                    lemma_entrada_actualiza(antes, a as int, b as int, c.distance, p, q);
                    lemma_entrada_actualiza(medio, b as int, a as int, c.distance, p, q);
                    lemma_entrada_actualiza(antes, a as int, b as int, c.distance, q, p);
                    lemma_entrada_actualiza(medio, b as int, a as int, c.distance, q, p);
                }
            }
            if self.tsp[a as usize] == 1 && self.tsp[b as usize] == 1 {
                self.distancias_tsp.push(c.distance);
            }
            k = k + 1;
        }
        let mut m: usize = 0;
        while m < ciudades.len()
            invariant
                m <= ciudades@.len(),
                forall|w: int| 0 <= w < ciudades@.len() ==> ciudad_valida(#[trigger] ciudades@[w]),
                self.data@ == tabla_desde(datos0, conexiones@, 0),
                self.data@.len() == NUM_CIUDADES * NUM_CIUDADES,
                tabla_simetrica(self.data@),
                tabla_acotada(self.data@),
                lista_acotada(self.distancias_tsp@),
                self.distancias_tsp@.to_multiset() == seleccion_desde(
                    lista0,
                    conexiones@,
                    self.tsp@,
                    0,
                ).to_multiset(),
                self.tsp@ == old(self).tsp@,
                self.tsp@.len() == NUM_CIUDADES,
                self.coordenadas@.len() == NUM_CIUDADES,
                coordenadas_desde(old(self).coordenadas@, ciudades@, 0) == coordenadas_desde(
                    self.coordenadas@,
                    ciudades@,
                    m as int,
                ),
            decreases ciudades@.len() - m,
        {
            let c = ciudades[m];
            self.coordenadas.set(c.id as usize, (c.latitud, c.longitud));
            m = m + 1;
        }
        let ghost antes_orden = self.distancias_tsp@;
        ordenar(&mut self.distancias_tsp);
        proof {
            lemma_multiset_misma_cota(antes_orden, self.distancias_tsp@);
        }
        Ok(())
    }
}

} // verus!
