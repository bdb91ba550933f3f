use tsp_umbrales::ErrorTsp;
use tsp_umbrales::db::CityDB;
use tsp_umbrales::db::Ciudad;
use tsp_umbrales::db::Conexion;
use tsp_umbrales::db::NUM_CIUDADES;
use tsp_umbrales::db::SIN_MEDIR;
use tsp_umbrales::db::ordenar;

fn indices_prueba() -> Vec<i64> {
    vec![1, 2, 3, 5]
}

fn conexiones_prueba() -> Vec<Conexion> {
    vec![
        Conexion { id_city_1: 1, id_city_2: 2, distance: 10 },
        Conexion { id_city_1: 2, id_city_2: 3, distance: 14 },
        Conexion { id_city_1: 1, id_city_2: 3, distance: 20 },
        Conexion { id_city_1: 3, id_city_2: 5, distance: 8 },
        Conexion { id_city_1: 7, id_city_2: 9, distance: 100 },
    ]
}

fn ciudades_prueba() -> Vec<Ciudad> {
    vec![
        Ciudad { id: 1, latitud: 19_432_600, longitud: -99_133_200 },
        Ciudad { id: 2, latitud: 40_416_800, longitud: -3_703_800 },
    ]
}

#[test]
fn constructor_marca_subconjunto() {
    let db = CityDB::new(&indices_prueba()).unwrap();
    assert_eq!(db.tsp[1], 1);
    assert_eq!(db.tsp[2], 1);
    assert_eq!(db.tsp[3], 1);
    assert_eq!(db.tsp[5], 1);
    assert_eq!(db.tsp[0], 0);
    assert_eq!(db.tsp[4], 0);
    assert_eq!(db.data[0], SIN_MEDIR);
    assert_eq!(db.data[1 * NUM_CIUDADES + 2], SIN_MEDIR);
    assert_eq!(db.data[(NUM_CIUDADES - 1) * NUM_CIUDADES], SIN_MEDIR);
    assert_eq!(db.coordenadas[0], (0, 0));
    assert!(db.distancias_tsp.is_empty());
}

#[test]
fn constructor_rechaza_indices_invalidos() {
    let r = CityDB::new(&vec![1, 2, 1093]);
    assert_eq!(r.unwrap_err(), ErrorTsp::DatosInvalidos);
    let r = CityDB::new(&vec![-1]);
    assert_eq!(r.unwrap_err(), ErrorTsp::DatosInvalidos);
}

#[test]
fn cargar_datos_simetrico_y_ordenado() {
    let mut db = CityDB::new(&indices_prueba()).unwrap();
    db.cargar_datos(&conexiones_prueba(), &ciudades_prueba()).unwrap();
    assert_eq!(db.data[1 * NUM_CIUDADES + 2], 10);
    assert_eq!(db.data[2 * NUM_CIUDADES + 1], 10);
    assert_eq!(db.data[3 * NUM_CIUDADES + 5], 8);
    assert_eq!(db.data[5 * NUM_CIUDADES + 3], 8);
    assert_eq!(db.data[7 * NUM_CIUDADES + 9], 100);
    assert_eq!(db.data[1 * NUM_CIUDADES + 5], SIN_MEDIR);
    // The edge (7, 9) lies outside the working subset: it is measured
    // but never joins the subset-distance list.
    assert_eq!(db.distancias_tsp, vec![8, 10, 14, 20]);
}

#[test]
fn cargar_datos_rechaza_registros_invalidos() {
    let mut db = CityDB::new(&indices_prueba()).unwrap();
    let malas = vec![Conexion { id_city_1: 1, id_city_2: 2000, distance: 10 }];
    assert_eq!(db.cargar_datos(&malas, &vec![]).unwrap_err(), ErrorTsp::DatosInvalidos);
    assert_eq!(db.data[1 * NUM_CIUDADES + 2000 - NUM_CIUDADES], SIN_MEDIR);
    let distancia_excesiva = vec![Conexion { id_city_1: 1, id_city_2: 2, distance: u64::MAX / 2 }];
    assert_eq!(db.cargar_datos(&distancia_excesiva, &vec![]).unwrap_err(), ErrorTsp::DatosInvalidos);
    let ciudad_mala = vec![Ciudad { id: -3, latitud: 0, longitud: 0 }];
    assert_eq!(db.cargar_datos(&vec![], &ciudad_mala).unwrap_err(), ErrorTsp::DatosInvalidos);
    assert_eq!(db.data[1 * NUM_CIUDADES + 2], SIN_MEDIR);
}

#[test]
fn coordenadas_de_ciudad() {
    let mut db = CityDB::new(&indices_prueba()).unwrap();
    db.cargar_datos(&conexiones_prueba(), &ciudades_prueba()).unwrap();
    assert_eq!(db.get_latitude_longitude(1), (19_432_600, -99_133_200));
    assert_eq!(db.get_latitude_longitude(2), (40_416_800, -3_703_800));
    assert_eq!(db.get_latitude_longitude(3), (0, 0));
}

#[test]
fn ordenar_lista() {
    let mut v: Vec<u64> = vec![14, 8, 20, 10, 8];
    ordenar(&mut v);
    assert_eq!(v, vec![8, 8, 10, 14, 20]);
    let mut vacia: Vec<u64> = Vec::new();
    ordenar(&mut vacia);
    assert!(vacia.is_empty());
}
