use tsp_umbrales::ErrorTsp;
use tsp_umbrales::db::CityDB;
use tsp_umbrales::db::Conexion;
use tsp_umbrales::grafica::Grafica;
use tsp_umbrales::tsp::COSTO_COTA;
use tsp_umbrales::tsp::LOTE_CAL;
use tsp_umbrales::tsp::OBJETIVO;
use tsp_umbrales::tsp::Tsp;

// Every pair of the 4-city working subset measured:
// (1,2)=10 (1,3)=20 (1,5)=13 (2,3)=14 (2,5)=9 (3,5)=8.
// Sorted subset distances: [8, 9, 10, 13, 14, 20]; the normalizer for
// a 4-city subset is the top four: 10 + 13 + 14 + 20 = 57.
fn grafica_completa() -> Grafica {
    let indices: Vec<i64> = vec![1, 2, 3, 5];
    let mut db = CityDB::new(&indices).unwrap();
    let conexiones = vec![
        Conexion { id_city_1: 1, id_city_2: 2, distance: 10 },
        Conexion { id_city_1: 1, id_city_2: 3, distance: 20 },
        Conexion { id_city_1: 1, id_city_2: 5, distance: 13 },
        Conexion { id_city_1: 2, id_city_2: 3, distance: 14 },
        Conexion { id_city_1: 2, id_city_2: 5, distance: 9 },
        Conexion { id_city_1: 3, id_city_2: 5, distance: 8 },
    ];
    db.cargar_datos(&conexiones, &vec![]).unwrap();
    Grafica::new(db)
}

fn motor(temperatura: i128, semilla: i64) -> Tsp {
    Tsp::new(temperatura, grafica_completa(), vec![1, 2, 3, 5], semilla).unwrap()
}

#[test]
fn costo_de_la_solucion_fija() {
    // Fixed subset, fresh (unshuffled) tour: the full-cost sum is a
    // known constant, anchoring the weight arithmetic end to end.
    let mut tsp = motor(100, 75);
    assert_eq!(tsp.normalizador, 57);
    assert_eq!(tsp.calcular_solucion(), 10 + 14 + 8);
    // A second evaluation sees the same tour and the same table.
    assert_eq!(tsp.calcular_solucion(), 32);
}

#[test]
fn costo_sin_pares_consecutivos_es_cero() {
    // A tour too short to hold an edge evaluates to cost zero.
    let mut tsp = motor(100, 75);
    tsp.solucion_actual = vec![1];
    assert_eq!(tsp.calcular_solucion(), 0);
    tsp.solucion_actual = Vec::new();
    assert_eq!(tsp.calcular_solucion(), 0);
}

#[test]
fn intercambio_coincide_con_calculo_completo() {
    // The incremental swap result equals the full recomputation on
    // the tour immediately after the swap: distant, adjacent,
    // identical and boundary position pairs.
    let mut tsp = motor(100, 75);
    tsp.peso_solucion_actual = tsp.calcular_solucion();
    let r = tsp.intercambiar_ciudades(0, 2);
    assert_eq!(r, 14 + 10 + 13);
    assert_eq!(r, tsp.calcular_solucion());
    tsp.peso_solucion_actual = r;
    let r = tsp.intercambiar_ciudades(1, 2);
    assert_eq!(r, tsp.calcular_solucion());
    tsp.peso_solucion_actual = r;
    let r = tsp.intercambiar_ciudades(3, 3);
    assert_eq!(r, tsp.peso_solucion_actual);
    assert_eq!(r, tsp.calcular_solucion());
    let r = tsp.intercambiar_ciudades(0, 3);
    assert_eq!(r, tsp.calcular_solucion());
}

#[test]
fn intercambio_doble_restaura() {
    // Swapping the same positions twice restores the tour and the
    // cost exactly.
    let mut tsp = motor(100, 75);
    tsp.peso_solucion_actual = tsp.calcular_solucion();
    let antes = tsp.solucion_actual.clone();
    let costo_antes = tsp.peso_solucion_actual;
    let ida = tsp.intercambiar_ciudades(1, 3);
    tsp.peso_solucion_actual = ida;
    let de_vuelta = tsp.intercambiar_ciudades(1, 3);
    assert_eq!(tsp.solucion_actual, antes);
    assert_eq!(de_vuelta, costo_antes);
}

#[test]
fn primera_solucion_es_permutacion() {
    let mut tsp = motor(100, 75);
    tsp.generar_primer_solucion();
    let mut orden = tsp.solucion_actual.clone();
    orden.sort();
    assert_eq!(orden, vec![1, 2, 3, 5]);
}

#[test]
fn errores_de_construccion() {
    assert_eq!(
        Tsp::new(100, grafica_completa(), vec![1], 75).unwrap_err(),
        ErrorTsp::DatosInvalidos,
    );
    assert_eq!(
        Tsp::new(100, grafica_completa(), vec![1, 2000], 75).unwrap_err(),
        ErrorTsp::DatosInvalidos,
    );
    assert_eq!(
        Tsp::new(0, grafica_completa(), vec![1, 2, 3, 5], 75).unwrap_err(),
        ErrorTsp::DatosInvalidos,
    );
    // Fewer recorded subset distances than cities in the tour.
    let indices: Vec<i64> = vec![1, 2, 3, 5];
    let mut db = CityDB::new(&indices).unwrap();
    db.cargar_datos(
        &vec![Conexion { id_city_1: 1, id_city_2: 2, distance: 10 }],
        &vec![],
    )
    .unwrap();
    assert_eq!(
        Tsp::new(100, Grafica::new(db), vec![1, 2, 3, 5], 75).unwrap_err(),
        ErrorTsp::Degenerado,
    );
    // Enough distances, but their top sum is zero.
    let mut db = CityDB::new(&indices).unwrap();
    db.cargar_datos(
        &vec![
            Conexion { id_city_1: 1, id_city_2: 2, distance: 0 },
            Conexion { id_city_1: 1, id_city_2: 3, distance: 0 },
            Conexion { id_city_1: 1, id_city_2: 5, distance: 0 },
            Conexion { id_city_1: 2, id_city_2: 3, distance: 0 },
        ],
        &vec![],
    )
    .unwrap();
    assert_eq!(
        Tsp::new(100, Grafica::new(db), vec![1, 2, 3, 5], 75).unwrap_err(),
        ErrorTsp::Degenerado,
    );
}

#[test]
fn sonda_acepta_todo_con_umbral_enorme() {
    let mut tsp = motor(100, 75);
    tsp.peso_solucion_actual = tsp.calcular_solucion();
    let tour_antes = tsp.solucion_actual.clone();
    let c = tsp.porcentajes_aceptados(COSTO_COTA);
    assert_eq!(c, LOTE_CAL - 1);
    // The probe rolls back whole: tour and stored cost as they began.
    assert_eq!(tsp.solucion_actual, tour_antes);
    assert_eq!(tsp.peso_solucion_actual, 32);
}

#[test]
fn calibracion_termina_y_restaura() {
    let mut tsp = motor(100, 75);
    tsp.peso_solucion_actual = tsp.calcular_solucion();
    let tour_antes = tsp.solucion_actual.clone();
    tsp.temperatura_inicial();
    assert!(tsp.temperatura >= 1);
    assert_eq!(tsp.solucion_actual, tour_antes);
    assert_eq!(tsp.peso_solucion_actual, 32);
    // At the calibrated threshold, the measured acceptance count sits
    // near the 60% target; on integer costs the rate is a step
    // function of the threshold, so a band stands in for a tolerance.
    let c = tsp.porcentajes_aceptados(tsp.temperatura);
    assert!(c >= OBJETIVO - 700, "tasa medida {} demasiado baja", c);
    assert!(c <= OBJETIVO + 700, "tasa medida {} demasiado alta", c);
}

#[test]
fn lote_extiende_rastro_coherente() {
    let mut tsp = motor(100, 75);
    tsp.peso_solucion_actual = tsp.calcular_solucion();
    tsp.calcular_lote();
    assert_eq!(tsp.soluciones_aceptadas.len(), 7000);
    assert_eq!(tsp.soluciones_para_svg.len(), 7000);
    assert_eq!(tsp.promedio_cuenta, 7000);
    let mut suma: i128 = 0;
    let mut anterior: i128 = 32;
    let mut minimo: i128 = i128::MAX;
    for (k, aceptada) in tsp.soluciones_aceptadas.iter().enumerate() {
        suma += *aceptada;
        assert!(tsp.mejor_solucion <= *aceptada);
        // The acceptance rule: strictly below the predecessor plus
        // the temperature.
        assert!(*aceptada < anterior + 100);
        anterior = *aceptada;
        // The improvement flag marks exactly the new minima.
        assert_eq!(tsp.soluciones_para_svg[k], (*aceptada, *aceptada < minimo));
        if *aceptada < minimo {
            minimo = *aceptada;
        }
    }
    assert_eq!(tsp.promedio_suma, suma);
    assert_eq!(tsp.mejor_solucion, minimo);
    assert_eq!(tsp.peso_solucion_actual, *tsp.soluciones_aceptadas.last().unwrap());
    let recalculado = tsp.calcular_solucion();
    assert_eq!(tsp.peso_solucion_actual, recalculado);
}

#[test]
fn corrida_completa_deterministica() {
    // Same dataset, same subset, same seed: identical accepted-cost
    // traces, identical best tours.
    let mut uno = motor(100, 75);
    let mut dos = motor(100, 75);
    uno.aceptacion_por_umbrales();
    dos.aceptacion_por_umbrales();
    assert_eq!(uno.soluciones_aceptadas, dos.soluciones_aceptadas);
    assert_eq!(uno.mejor_solucion, dos.mejor_solucion);
    assert_eq!(uno.mejor_solucion_arr, dos.mejor_solucion_arr);
    assert_eq!(uno.solucion_actual, dos.solucion_actual);
    assert_eq!(uno.peso_solucion_actual, dos.peso_solucion_actual);
}

#[test]
fn corrida_completa_invariantes() {
    let mut tsp = motor(100, 75);
    tsp.aceptacion_por_umbrales();
    assert!(tsp.temperatura <= 1);
    assert!(tsp.mejor_solucion < i128::MAX);
    // The best is the minimum of the accepted-cost trace.
    assert!(tsp.soluciones_aceptadas.contains(&tsp.mejor_solucion));
    for aceptada in tsp.soluciones_aceptadas.iter() {
        assert!(tsp.mejor_solucion <= *aceptada);
    }
    let mut orden = tsp.mejor_solucion_arr.clone();
    orden.sort();
    assert_eq!(orden, vec![1, 2, 3, 5]);
    // The recorded best cost is the true cost of the recorded best tour.
    let mejor = tsp.mejor_solucion;
    tsp.solucion_actual = tsp.mejor_solucion_arr.clone();
    assert_eq!(tsp.calcular_solucion(), mejor);
}

#[test]
fn barrido_alcanza_optimo_local() {
    let mut tsp = motor(100, 75);
    tsp.generar_primer_solucion();
    let costo_inicial = tsp.calcular_solucion();
    tsp.barrido();
    let costo_final = tsp.peso_solucion_actual;
    assert!(costo_final <= costo_inicial);
    assert_eq!(costo_final, tsp.calcular_solucion());
    // No single position swap improves the tour any further.
    let n = tsp.solucion_actual.len();
    for x in 0..n {
        for y in (x + 1)..n {
            let d = tsp.intercambiar_ciudades(x, y);
            assert!(d >= costo_final);
            let _ = tsp.intercambiar_ciudades(x, y);
        }
    }
}
