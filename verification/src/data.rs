pub mod bitset;
pub mod four_vec;
pub mod link_list;
