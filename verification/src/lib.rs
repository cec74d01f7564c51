//! Verified core of the vivrt ray-tracing workspace: OptiX result-code
//! handling, the binary PLY mesh reader and the PBRT `tensor_file` reader.

pub mod error;
pub mod error_laws;
pub mod optix;
pub mod scalar;
pub mod text;
pub mod ply_header;
pub mod ply_body;
pub mod ply;
pub mod ply_laws;
pub mod ply_edits;
pub mod ply_face_edits;
pub mod ply_edit_chain;
pub mod tensor;
pub mod bsdf_grid;

pub use error::{check, extract_log, OptixError, WithLog};
pub use optix::{init, FunctionTable, Optix};
pub use ply::{load_from_bytes, parse_ply, read_ply, PlyError};
pub use ply_body::PlyMesh;
pub use tensor::{parse_tensor_file, TensorField};
