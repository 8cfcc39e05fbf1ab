//! Player invocation: the options and the exact argument lists.
//!
//! Spawning the player processes is the caller's business; this module
//! pins down what is handed to them.

use vstd::prelude::*;

verus! {

/// How the player is asked to behave.
pub struct PlayerOptions {
    pub fullscreen: bool,
    pub no_detach: bool,
    pub exit_after_play: bool,
    pub skip_intro: bool,
    pub skip_title: Option<String>,
    pub nextep_countdown: bool,
}

impl Default for PlayerOptions {
    /// The stock options: fullscreen playback, everything else off.
    fn default() -> (o: PlayerOptions)
        ensures
            o.fullscreen == true,
            o.no_detach == false,
            o.exit_after_play == false,
            o.skip_intro == false,
            o.skip_title is None,
            o.nextep_countdown == false,
    {
        PlayerOptions {
            fullscreen: true,
            no_detach: false,
            exit_after_play: false,
            skip_intro: false,
            skip_title: None,
            nextep_countdown: false,
        }
    }
}

/// The argument list a direct stream is played with: a windowed X11 setup
/// without hardware decoding, fullscreen, the window kept open, and the
/// stream URL last.
pub fn mpv_stream_args(stream_url: &str) -> (r: Vec<String>)
    ensures
        r@.len() == 11,
        r@[0]@ == ("--no-terminal")@,
        r@[1]@ == ("--msg-level=all=info")@,
        r@[2]@ == ("--hwdec=no")@,
        r@[3]@ == ("--vo=x11")@,
        r@[4]@ == ("--gpu-context=x11")@,
        r@[5]@ == ("--opengl-backend=x11")@,
        r@[6]@ == ("--fs")@,
        r@[7]@ == ("--force-window=yes")@,
        r@[8]@ == ("--keep-open=yes")@,
        r@[9]@ == ("--ytdl=no")@,
        r@[10]@ == stream_url@,
{
    let mut r: Vec<String> = Vec::new();
    r.push(String::from_str("--no-terminal"));
    r.push(String::from_str("--msg-level=all=info"));
    r.push(String::from_str("--hwdec=no"));
    r.push(String::from_str("--vo=x11"));
    r.push(String::from_str("--gpu-context=x11"));
    r.push(String::from_str("--opengl-backend=x11"));
    r.push(String::from_str("--fs"));
    r.push(String::from_str("--force-window=yes"));
    r.push(String::from_str("--keep-open=yes"));
    r.push(String::from_str("--ytdl=no"));
    r.push(stream_url.to_owned());
    r
}

/// The argument list a stream is played with as the fallback: fixed
/// 1280x720 output, a compatible pixel format, quiet logs, and the stream
/// URL last.
pub fn ffplay_stream_args(stream_url: &str) -> (r: Vec<String>)
    ensures
        r@.len() == 14,
        r@[0]@ == ("-autoexit")@,
        r@[1]@ == ("-fs")@,
        r@[2]@ == ("-nodisp")@,
        r@[3]@ == ("-vf")@,
        r@[4]@ == ("format=yuv420p")@,
        r@[5]@ == ("-x")@,
        r@[6]@ == ("1280")@,
        r@[7]@ == ("-y")@,
        r@[8]@ == ("720")@,
        r@[9]@ == ("-sws_flags")@,
        r@[10]@ == ("bilinear")@,
        r@[11]@ == ("-loglevel")@,
        r@[12]@ == ("warning")@,
        r@[13]@ == stream_url@,
{
    let mut r: Vec<String> = Vec::new();
    r.push(String::from_str("-autoexit"));
    r.push(String::from_str("-fs"));
    r.push(String::from_str("-nodisp"));
    r.push(String::from_str("-vf"));
    r.push(String::from_str("format=yuv420p"));
    r.push(String::from_str("-x"));
    r.push(String::from_str("1280"));
    r.push(String::from_str("-y"));
    r.push(String::from_str("720"));
    r.push(String::from_str("-sws_flags"));
    r.push(String::from_str("bilinear"));
    r.push(String::from_str("-loglevel"));
    r.push(String::from_str("warning"));
    r.push(stream_url.to_owned());
    r
}

/// The argument list a stream is played with in a fullscreen window, with
/// no title overlay, and the stream URL last.
pub fn vlc_stream_args(stream_url: &str) -> (r: Vec<String>)
    ensures
        r@.len() == 3,
        r@[0]@ == ("--fullscreen")@,
        r@[1]@ == ("--no-video-title-show")@,
        r@[2]@ == stream_url@,
{
    let mut r: Vec<String> = Vec::new();
    r.push(String::from_str("--fullscreen"));
    r.push(String::from_str("--no-video-title-show"));
    r.push(stream_url.to_owned());
    r
}

/// The argument list a stream is downloaded with: redirects followed, the
/// output path after `-o`, and the stream URL last.
pub fn download_args(stream_url: &str, output_path: &str) -> (r: Vec<String>)
    ensures
        r@.len() == 4,
        r@[0]@ == ("-L")@,
        r@[1]@ == ("-o")@,
        r@[2]@ == output_path@,
        r@[3]@ == stream_url@,
{
    let mut r: Vec<String> = Vec::new();
    r.push(String::from_str("-L"));
    r.push(String::from_str("-o"));
    r.push(output_path.to_owned());
    r.push(stream_url.to_owned());
    r
}

} // verus!
