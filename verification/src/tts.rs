//! Speech synthesis with ElevenLabs: whether a request is made and where it
//! goes. The request itself and the audio playback are done around the
//! library.

use vstd::prelude::*;

verus! {

/// Address of the text-to-speech endpoint, to which the voice id is appended.
pub const ELEVENLABS_TTS_URL: &'static str = "https://api.elevenlabs.io/v1/text-to-speech/";

/// The multilingual model, which handles Brazilian Portuguese.
pub const ELEVENLABS_MODEL_ID: &'static str = "eleven_multilingual_v2";

/// The address a text is sent to for the given voice, when both the API key
/// and the voice id are set; `None` (no request: speech is skipped) otherwise.
pub open spec fn tts_endpoint_spec(api_key: Seq<char>, voice_id: Seq<char>) -> Option<Seq<char>> {
    if api_key.len() == 0 || voice_id.len() == 0 {
        None
    } else {
        Some(ELEVENLABS_TTS_URL@ + voice_id)
    }
}

/// The endpoint of a speech request (see `tts_endpoint_spec`).
pub fn tts_endpoint(api_key: &str, voice_id: &str) -> (r: Option<String>)
    ensures
        match r {
            Some(u) => tts_endpoint_spec(api_key@, voice_id@) == Some(u@),
            None => tts_endpoint_spec(api_key@, voice_id@) is None,
        },
{
    if api_key.is_empty() || voice_id.is_empty() {
        return None;
    }
    let mut url = String::from_str(ELEVENLABS_TTS_URL);
    url.append(voice_id);
    Some(url)
}

} // verus!
