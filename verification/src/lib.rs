pub mod codecs;
pub mod convert;
pub mod crossfade;
pub mod desktop_lyrics;
pub mod dsp;
pub mod fade;
pub mod file_props;
pub mod lrc_search;
pub mod lyrics_parser;
pub mod lyrics_provider;
pub mod lyrics_timing;
pub mod paths;
pub mod pcm;
pub mod player;
pub mod playlist;
pub mod ring;
pub mod skin;
pub mod tags;
pub mod text;
pub mod textcodec;
pub mod types;
