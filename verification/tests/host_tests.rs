use fromfix::host::{detect_game, dir_of, file_of, Game};

#[test]
fn dir_of_keeps_trailing_separator() {
    assert_eq!(dir_of("C:\\Games\\Sekiro\\sekiro.exe"), "C:\\Games\\Sekiro\\");
    assert_eq!(dir_of("/home/u/game/DarkSoulsIII.exe"), "/home/u/game/");
    assert_eq!(dir_of("a/b\\c"), "a/b\\");
    assert_eq!(dir_of("sekiro.exe"), "");
    assert_eq!(dir_of(""), "");
}

#[test]
fn file_of_is_lowercase_last_component() {
    assert_eq!(file_of("C:\\Steam\\DARK SOULS III\\Game\\DarkSoulsIII.exe"), "darksoulsiii.exe");
    assert_eq!(file_of("Sekiro.EXE"), "sekiro.exe");
    assert_eq!(file_of("dir\\"), "");
    assert_eq!(file_of("a/B"), "b");
    assert_eq!(file_of("\u{C9}X.exe"), "\u{C9}x.exe");
}

#[test]
fn dir_and_file_make_up_the_path() {
    let p = "C:\\X\\Y\\Sekiro.exe";
    assert_eq!(format!("{}{}", dir_of(p), file_of(p)), "C:\\X\\Y\\sekiro.exe");
}

#[test]
fn game_detection() {
    assert_eq!(detect_game("sekiro.exe"), Game::Sekiro);
    assert_eq!(detect_game("darksoulsiii.exe"), Game::DarkSouls3);
    assert_eq!(detect_game("Sekiro.exe"), Game::Unknown);
    assert_eq!(detect_game("eldenring.exe"), Game::Unknown);
    assert_eq!(detect_game(""), Game::Unknown);
    assert_eq!(detect_game(&file_of("D:\\Sekiro\\SEKIRO.EXE")), Game::Sekiro);
}
