use tsp_umbrales::db::CityDB;
use tsp_umbrales::db::Conexion;
use tsp_umbrales::grafica::Grafica;
use tsp_umbrales::tsp::Tsp;

fn grafica_prueba() -> Grafica {
    let indices: Vec<i64> = vec![1, 2, 3, 5];
    let mut db = CityDB::new(&indices).unwrap();
    let conexiones = vec![
        Conexion { id_city_1: 1, id_city_2: 2, distance: 10 },
        Conexion { id_city_1: 2, id_city_2: 3, distance: 14 },
        Conexion { id_city_1: 1, id_city_2: 3, distance: 20 },
        Conexion { id_city_1: 3, id_city_2: 5, distance: 8 },
    ];
    db.cargar_datos(&conexiones, &vec![]).unwrap();
    let mut g = Grafica::new(db);
    // Normalizer for a 4-city subset: 8 + 10 + 14 + 20.
    g.fijar_normalizador(52);
    g
}

#[test]
fn peso_medido_directo() {
    let mut g = grafica_prueba();
    assert_eq!(g.peso(1, 2), 10);
    assert_eq!(g.peso(3, 5), 8);
}

#[test]
fn peso_simetrico() {
    // Symmetry, measured and unmeasured alike, including immediately
    // after the first computation of a previously-unmeasured pair.
    let mut g = grafica_prueba();
    assert_eq!(g.peso(1, 2), g.peso(2, 1));
    g.registrar_estimacion(1, 5, 3);
    let primero = g.peso(1, 5);
    assert_eq!(g.peso(5, 1), primero);
    assert_eq!(primero, 3 * 52);
}

#[test]
fn peso_memoizado_idempotente() {
    // Two calls return the same value; the second does not alter the
    // first's estimate-derived result.
    let mut g = grafica_prueba();
    g.registrar_estimacion(2, 5, 7);
    let primero = g.peso(2, 5);
    let segundo = g.peso(2, 5);
    assert_eq!(primero, 7 * 52);
    assert_eq!(segundo, primero);
    assert_eq!(g.peso(5, 2), primero);
}

#[test]
fn peso_sin_estimacion_es_cero() {
    let mut g = grafica_prueba();
    assert_eq!(g.peso(2, 5), 0);
}

#[test]
fn estimacion_registrada() {
    let mut g = grafica_prueba();
    g.registrar_estimacion(1, 5, 42);
    assert_eq!(g.distancia_natural(1, 5), 42);
    assert_eq!(g.distancia_natural(5, 1), 42);
    assert_eq!(g.distancia_natural(1, 2), 0);
}

#[test]
fn normalizador_suma_los_maximos() {
    // The sum of the top `n` entries of the ascending list.
    let lista: Vec<u64> = vec![1, 2, 3, 4, 5];
    assert_eq!(Tsp::get_normalizador(&lista, 3), 12);
    assert_eq!(Tsp::get_normalizador(&lista, 5), 15);
    assert_eq!(Tsp::get_normalizador(&lista, 1), 5);
    assert_eq!(Tsp::get_normalizador(&lista, 0), 0);
}
