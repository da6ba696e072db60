//! Integer bookkeeping and exactness rules of a phased-array beam synthesis
//! pipeline: the resolution arithmetic and ring layout of the spherical
//! pixelization that carries element power patterns; the exact cell, row and
//! column layout of the planar and angular sample grids that the beam maps
//! are written into; and the pipeline's bit-exact rules on encoded samples —
//! the reciprocal Jones relation, the singularity and validity sentinels,
//! and the peak a plane is normalized by. Every layout fact is proved: grids
//! tile their buffers, every sample owns exactly one position, and the
//! per-plane normalization regions are disjoint.

pub mod grid;
pub mod healpix;
pub mod jones_table;
pub mod rings;
pub mod samples;
