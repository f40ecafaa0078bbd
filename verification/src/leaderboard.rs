//! The rules by which a score is taken into the list of high scores.

use crate::net::HighscoreReq;
use crate::tetris::game::GameSettings;
use vstd::prelude::*;

verus! {

/// The longest name, in bytes, under which a score is taken.
pub const MAX_NAME_LEN: usize = 50;

/// The mode of play under which a score is listed: what the settings
/// `jupiter` and `nes` make of a match.
#[derive(Debug, Clone, Copy, PartialEq, Eq, Structural)]
pub enum Mode {
    Normal,
    Jupiter,
    Nes,
    Crazy,
}

impl Mode {
    pub open spec fn spec_from_settings(settings: GameSettings) -> Mode {
        if settings.jupiter && settings.nes {
            Mode::Crazy
        } else if settings.jupiter {
            Mode::Jupiter
        } else if settings.nes {
            Mode::Nes
        } else {
            Mode::Normal
        }
    }

    /// The mode of a match with the given settings.
    pub fn from_settings(settings: GameSettings) -> (mode: Mode)
        ensures
            mode == Mode::spec_from_settings(settings),
    {
        match (settings.jupiter, settings.nes) {
            (true, true) => Mode::Crazy,
            (true, false) => Mode::Jupiter,
            (false, true) => Mode::Nes,
            (false, false) => Mode::Normal,
        }
    }
}

/// Why a score is not taken.
#[derive(Debug, Clone, Copy, PartialEq, Eq, Structural)]
pub enum Refusal {
    /// The match was played with the setting `easy`.
    EasyMode,
    /// The name is longer than [`MAX_NAME_LEN`] bytes.
    NameTooLong,
}

/// The length of the name of a request, in bytes.
pub open spec fn name_len(req: &HighscoreReq) -> nat {
    vstd::utf8::encode_utf8(req.name@).len()
}

/// Whether a score is taken, as far as its own data tell, and if not, why.
/// A score of a match with the setting `easy` is never taken; of the others,
/// one under a name that is too long is not. A score that is taken is listed
/// under the mode of its settings.
pub fn check_entry(req: &HighscoreReq) -> (r: Result<Mode, Refusal>)
    ensures
        req.settings.easy ==> r == Err::<Mode, Refusal>(Refusal::EasyMode),
        !req.settings.easy && name_len(req) > MAX_NAME_LEN ==> r == Err::<Mode, Refusal>(
            Refusal::NameTooLong,
        ),
        !req.settings.easy && name_len(req) <= MAX_NAME_LEN ==> r == Ok::<Mode, Refusal>(
            Mode::spec_from_settings(req.settings),
        ),
{
    if req.settings.easy {
        return Err(Refusal::EasyMode);
    }
    if req.name.as_str().as_bytes().len() > MAX_NAME_LEN {
        return Err(Refusal::NameTooLong);
    }
    Ok(Mode::from_settings(req.settings))
}

} // verus!
