use pfengine::cli::{parse_players, PlayersArgError, DEFAULT_PLAYERS};

fn args(list: &[&str]) -> Vec<String> {
    list.iter().map(|s| s.to_string()).collect()
}

#[test]
fn defaults_to_two_players() {
    assert_eq!(parse_players(&args(&[])), Ok(DEFAULT_PLAYERS));
}

#[test]
fn reads_the_players_flag() {
    assert_eq!(parse_players(&args(&["--players", "4"])), Ok(4));
}

#[test]
fn ignores_unrelated_args() {
    assert_eq!(parse_players(&args(&["--foo", "--players", "3", "bar"])), Ok(3));
}

#[test]
fn rejects_zero_players() {
    assert_eq!(
        parse_players(&args(&["--players", "0"])),
        Err(PlayersArgError::Zero)
    );
}

#[test]
fn rejects_non_numeric_players() {
    assert_eq!(
        parse_players(&args(&["--players", "four"])),
        Err(PlayersArgError::NotANumber)
    );
}

#[test]
fn rejects_a_missing_value() {
    assert_eq!(
        parse_players(&args(&["--players"])),
        Err(PlayersArgError::MissingValue)
    );
}

#[test]
fn only_the_first_players_flag_counts() {
    assert_eq!(parse_players(&args(&["--players", "5", "--players", "6"])), Ok(5));
    assert_eq!(
        parse_players(&args(&["--players", "--players", "6"])),
        Err(PlayersArgError::NotANumber)
    );
}

#[test]
fn player_counts_parse_as_decimal_usize() {
    assert_eq!(parse_players(&args(&["--players", "+7"])), Ok(7));
    assert_eq!(parse_players(&args(&["--players", "007"])), Ok(7));
    assert_eq!(
        parse_players(&args(&["--players", "-1"])),
        Err(PlayersArgError::NotANumber)
    );
    assert_eq!(
        parse_players(&args(&["--players", " 3"])),
        Err(PlayersArgError::NotANumber)
    );
    assert_eq!(
        parse_players(&args(&["--players", ""])),
        Err(PlayersArgError::NotANumber)
    );
    assert_eq!(
        parse_players(&args(&["--players", "99999999999999999999999"])),
        Err(PlayersArgError::NotANumber)
    );
    assert_eq!(parse_players(&args(&["-players", "3"])), Ok(DEFAULT_PLAYERS));
}
