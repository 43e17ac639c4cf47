pub mod arm_engine;
pub mod arm_memory;
pub mod audio;
pub mod bytes;
pub mod canvas;
pub mod config;
pub mod config_text;
pub mod content;
pub mod font_tables;
pub mod framebuffer;
pub mod gamepad;
pub mod guest;
pub mod guest_machine;
pub mod image_decode;
pub mod input_state;
pub mod keys;
pub mod lifecycle;
pub mod media;
pub mod midi_output;
pub mod option_list;
pub mod options;
pub mod ordered;
pub mod pixel;
pub mod playback;
pub mod pressed;
pub mod retro_core;
pub mod retro_input;
pub mod scaler;
pub mod shared;
pub mod smaf_player;
pub mod sound_font;
pub mod start;
pub mod storage;
pub mod table;
pub mod text;
pub mod video;
pub mod voices;
pub mod window;
