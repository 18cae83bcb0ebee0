/// Frame timing of looping animations.
pub mod anim;
/// Quest entities: the conditions that show them and grant quest flags.
pub mod entities;
/// The player's body and one tick of its physics against the tile layers.
pub mod player;
/// Layout of text in the pixel font.
pub mod text;
/// Reading a level's tile layers from map text.
pub mod tilemap;
/// Chunked tile storage and lookup.
pub mod world;
