//! Choosing, capturing and streaming parts of a Wayland desktop.

pub mod actions;
pub mod capture;
pub mod cast;
pub mod codec;
pub mod compose;
pub mod damage;
pub mod decode;
pub mod demo;
pub mod desktop;
pub mod destination;
pub mod dispatch;
pub mod double;
pub mod encoder;
pub mod extend;
pub mod frame;
pub mod hypr;
pub mod ipc;
pub mod json;
pub mod keys;
pub mod layout;
pub mod live;
pub mod output;
pub mod overlay;
pub mod picker;
pub mod pixels;
pub mod portal;
pub mod preview;
pub mod previews;
pub mod raster;
pub mod records;
pub mod rect;
pub mod registry;
pub mod request;
pub mod search;
pub mod selector;
pub mod send;
pub mod session;
pub mod settings;
pub mod single;
pub mod strings;
pub mod text;
pub mod video;
pub mod view;
pub mod widgets;
pub mod wording;
