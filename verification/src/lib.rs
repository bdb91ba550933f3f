//! A Traveling-Salesman local-search library: a weighted graph over a
//! city table with a memoized fallback weight, and a threshold-accepting
//! optimization engine with an incremental (delta) cost update, batch
//! convergence, geometric cooling and automatic temperature calibration.
//!
//! All distances, costs and temperatures are exact integers: distances
//! are fixed-point values below `db::DISTANCIA_MAX`, tour costs are
//! `i128` sums of edge weights. Loading the city dataset, computing the
//! great-circle estimates from coordinates, and rendering results are
//! collaborator concerns that hand this library plain values.

use vstd::prelude::*;

pub mod aleatorio;
pub mod db;
pub mod grafica;
pub mod tsp;

verus! {

/// Errors reported by the optimization engine and its data layer.
#[derive(Clone, Copy, Debug, PartialEq, Eq, Structural)]
pub enum ErrorTsp {
    /// A record or an argument is malformed: an id out of range, a
    /// distance over the supported bound, or a tour that is too short
    /// or too long.
    DatosInvalidos,
    /// The normalizing constant cannot be formed: the sorted distance
    /// list has fewer entries than the working subset, or the sum of
    /// its top entries is zero.
    Degenerado,
}

} // verus!
