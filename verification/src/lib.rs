pub mod codec;
pub mod crypto;
pub mod protocol;
pub mod store;
pub mod types;

pub use codec::{
    hex_from_bigi, hex_from_bigi_pair, hex_from_bigi_vec, hex_from_bytes, hex_from_point,
    hex_from_point_vec, hex_to_bigi, hex_to_bigi_pair, hex_to_bigi_vec, hex_to_bytes,
    hex_to_point, hex_to_point_vec,
};
pub use crypto::{
    check_data_block_size, check_data_signature, check_secret_signature, generate_secret,
};
pub use protocol::{DeleteInput, SaveInput};
pub use store::{Block, Store};
pub use types::{Bigi, Error, Point};
