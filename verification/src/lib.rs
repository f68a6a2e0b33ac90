pub mod block;
pub mod directions;
pub mod instance;
pub mod bits;
pub mod meshing;
pub mod quads;
pub mod position;
pub mod voxel_data;
pub mod bounds;
pub mod fence;
pub mod svt64;
pub mod render_types;
pub mod programs;
pub mod mesh_laws;
pub mod chunk;
pub mod culled_law;
pub mod greedy_law;
pub mod benchmark;
pub mod bench_stats;
pub mod svt64_tree;
pub mod shaders;
pub mod multidraw;
pub mod args;
pub mod basic;
pub mod scene;
pub mod bench_report;
pub mod chunk_map;
