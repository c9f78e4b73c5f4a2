//! A fixed-length identifier viewed as a point in XOR space, with the
//! distance comparisons, bucket index and encodings built on it.

pub mod codec;
pub mod hex;
pub mod laws;
pub mod name;
pub mod slices;

pub use codec::SeqLengthError;
pub use hex::XorNameFromHexError;
pub use name::{closer_to_target, closer_to_target_or_equal, XorName, XOR_NAME_BITS, XOR_NAME_LEN};
pub use slices::{slice_as_u8_64_array, slice_equal};
