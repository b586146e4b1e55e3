//! The remote assets the sonar downloads: the voice model and its configuration.

use vstd::prelude::*;

verus! {

/// The directory an asset is kept in.
#[derive(Debug, Clone, Copy, PartialEq, Eq, Structural)]
pub enum AssetDir {
    Data,
}

/// An asset the sonar downloads: its name, where it is kept, its file name and the
/// address it is fetched from.
#[derive(Debug, Clone, Copy, PartialEq, Eq)]
pub struct RemoteAsset {
    pub name: &'static str,
    pub dir: AssetDir,
    pub filename: &'static str,
    pub default_url: &'static str,
}

/// The assets the sonar downloads.
#[derive(Debug, Clone, Copy, PartialEq, Eq, Structural)]
pub enum RemoteAssets {
    VoiceModelConfig,
    VoiceModel,
}

/// The name, file name and address of an asset.
pub open spec fn asset_of(a: RemoteAssets) -> (Seq<char>, Seq<char>, Seq<char>) {
    match a {
        RemoteAssets::VoiceModelConfig => (
            "Voice Model Configuration"@,
            "en_US-libritts_r-medium.onnx.json"@,
            "https://github.com/cornmonger/solar_sonar_asssets/raw/refs/heads/dev/thirdparty/rhasspy/piper-voices/en_US-libritts_r-medium.onnx.json"@,
        ),
        RemoteAssets::VoiceModel => (
            "Voice Model"@,
            "en_US-libritts_r-medium.onnx"@,
            "https://media.githubusercontent.com/media/cornmonger/solar_sonar_asssets/refs/heads/dev/thirdparty/rhasspy/piper-voices/en_US-libritts_r-medium.onnx"@,
        ),
    }
}

/// Whether `r` is the asset `a`, kept in the data directory.
pub open spec fn is_asset(r: RemoteAsset, a: RemoteAssets) -> bool {
    (r.name@, r.filename@, r.default_url@) == asset_of(a) && r.dir == AssetDir::Data
}

impl RemoteAssets {
    /// The asset.
    pub fn get(&self) -> (r: RemoteAsset)
        ensures
            is_asset(r, *self),
    {
        match self {
            RemoteAssets::VoiceModelConfig => RemoteAsset {
                name: "Voice Model Configuration",
                dir: AssetDir::Data,
                filename: "en_US-libritts_r-medium.onnx.json",
                default_url: "https://github.com/cornmonger/solar_sonar_asssets/raw/refs/heads/dev/thirdparty/rhasspy/piper-voices/en_US-libritts_r-medium.onnx.json",
            },
            RemoteAssets::VoiceModel => RemoteAsset {
                name: "Voice Model",
                dir: AssetDir::Data,
                filename: "en_US-libritts_r-medium.onnx",
                default_url: "https://media.githubusercontent.com/media/cornmonger/solar_sonar_asssets/refs/heads/dev/thirdparty/rhasspy/piper-voices/en_US-libritts_r-medium.onnx",
            },
        }
    }

    /// All the assets, the voice model's configuration first.
    pub fn all() -> (r: Vec<RemoteAsset>)
        ensures
            r@.len() == 2,
            is_asset(r@[0], RemoteAssets::VoiceModelConfig),
            is_asset(r@[1], RemoteAssets::VoiceModel),
    {
        let mut v: Vec<RemoteAsset> = Vec::new();
        v.push(RemoteAssets::VoiceModelConfig.get());
        v.push(RemoteAssets::VoiceModel.get());
        v
    }
}

} // verus!
