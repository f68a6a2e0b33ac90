pub mod basic_voxel;
pub mod culled_voxel;
pub mod culled_voxel_combined;
pub mod greedy_voxel;
pub mod greedy_voxel_combined;
