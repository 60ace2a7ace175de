pub mod header;
pub mod json;
pub mod numparse;
pub mod slice;
pub mod item;
pub mod unpacker;

pub use header::Header;
pub use header::HeaderError;
pub use header::WrongMagic;
pub use header::MAGIC_LEN;
pub use header::UUID;
pub use header::read_magic;
pub use header::read_header;
pub use header::magic_bytes;
pub use item::Decoder;
pub use item::Error;
pub use item::Event;
pub use item::EventKind;
pub use item::InputSlot;
pub use item::InputSnap;
pub use item::PlayerSlot;
pub use item::PlayerSnap;
pub use item::MAX_CLIENTS;
pub use item::NUM_ITEM_KINDS;
pub use slice::relative_size_of;
pub use slice::relative_size_of_mult;
pub use unpacker::MaybeEnd;
pub use unpacker::UnexpectedEnd;
pub use unpacker::Unpacker;
