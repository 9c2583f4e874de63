//! The files that are hashed when the caller names none: two files of the game,
//! below the home directory of the user.

use crate::chars::chars_of;
use vstd::prelude::*;

verus! {

/// The directory of the game, seen from the home directory.
pub const GAME_DIRECTORY: &'static str = ".local/share/Steam/steamapps/common/hackmud";

/// The first file, seen from the directory of the game.
pub const CORE_LIBRARY: &'static str = "hackmud_lin_Data/Managed/Core.dll";

/// The second file, seen from the directory of the game.
pub const FIRST_LEVEL: &'static str = "hackmud_lin_Data/level0";

/// The path `relative` seen from the directory `base`: the two are joined by a
/// `/` unless `base` is empty or ends in one already.
pub open spec fn joined(base: Seq<char>, relative: Seq<char>) -> Seq<char> {
    if base.len() == 0 || base.last() == '/' {
        base + relative
    } else {
        base + seq!['/'] + relative
    }
}

/// The two default files for the home directory `home`.
pub open spec fn default_files(home: Seq<char>) -> (Seq<char>, Seq<char>) {
    let game = joined(home, GAME_DIRECTORY@);
    (joined(game, CORE_LIBRARY@), joined(game, FIRST_LEVEL@))
}

/// Joins a path that does not start at the root to the directory `base`.
pub fn join_relative(base: &str, relative: &str) -> (path: String)
    ensures
        path@ == joined(base@, relative@),
{
    let chars = chars_of(base);
    let mut path = String::from_str(base);
    if chars.len() > 0 && chars[chars.len() - 1] != '/' {
        path.push('/');
    }
    path.append(relative);
    assert(path@ =~= joined(base@, relative@));
    path
}

/// The paths of the two default files for the home directory `home`.
pub fn get_default_paths(home: &str) -> (paths: (String, String))
    ensures
        (paths.0@, paths.1@) == default_files(home@),
{
    let game = join_relative(home, GAME_DIRECTORY);
    (join_relative(game.as_str(), CORE_LIBRARY), join_relative(game.as_str(), FIRST_LEVEL))
}

} // verus!
