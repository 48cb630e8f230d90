use pioneer_trail::art::{mono_level, ColorMode, Pixel, PxError, PxImage};
use pioneer_trail::seed::{SeedError, WorldSeed};

const ALPHABET: &[u8; 32] = b"0123456789abcdefghjkmnpqrstvwxyz";

#[test]
fn parses_comments_and_transparency() {
    let image = PxImage::parse("# wagon\n.W\nGO\n").unwrap();
    assert_eq!((image.width(), image.height(), image.cell_height()), (2, 2, 1));
    assert_eq!(image.pixel(0, 0), None);
    assert_eq!(image.pixel(1, 1), Some(Pixel::Orange));
}

#[test]
fn rejects_invalid_pixel() {
    assert_eq!(
        PxImage::parse("W?\nWW\n").unwrap_err(),
        PxError::InvalidPixel { line: 1, column: 2, found: '?' }
    );
}

#[test]
fn rejects_ragged_and_blank_rows() {
    assert!(matches!(PxImage::parse("WW\nW\n"), Err(PxError::RaggedRow { .. })));
    assert!(matches!(PxImage::parse("WW\n\n"), Err(PxError::EmptyRow { .. })));
}

#[test]
fn px_errors_name_lines_and_limits() {
    assert_eq!(PxImage::parse("").unwrap_err(), PxError::Empty);
    assert_eq!(PxImage::parse("# only a comment\n").unwrap_err(), PxError::Empty);
    assert_eq!(PxImage::parse("#c\n\nWW\n").unwrap_err(), PxError::EmptyRow { line: 2 });
    assert_eq!(
        PxImage::parse("WWW\r\nWW\r\n").unwrap_err(),
        PxError::RaggedRow { line: 2, expected: 3, actual: 2 }
    );
    let wide = "W".repeat(257);
    assert_eq!(PxImage::parse(&wide).unwrap_err(), PxError::TooLarge);
    let tall = "W\n".repeat(257);
    assert_eq!(PxImage::parse(&tall).unwrap_err(), PxError::TooLarge);
    let image = PxImage::parse("KWG\r\nVOB\n...").unwrap();
    assert_eq!((image.width(), image.height(), image.cell_height()), (3, 3, 2));
    assert_eq!(image.pixel(2, 1), Some(Pixel::Blue));
    assert_eq!(image.pixel(0, 2), None);
    assert_eq!(image.pixel(3, 0), None);
    assert_eq!(image.pixel(0, 3), None);
}

#[test]
fn palette_characters_round_trip() {
    for pixel in [Pixel::Black, Pixel::White, Pixel::Green, Pixel::Violet, Pixel::Orange, Pixel::Blue] {
        assert_eq!(Pixel::from_char(pixel.as_char()), Some(Some(pixel)));
    }
    assert_eq!(Pixel::from_char('.'), Some(None));
    assert_eq!(Pixel::from_char('x'), None);
}

#[test]
fn mono_glyphs_follow_brightness() {
    assert_eq!(ColorMode::mono_glyph(Pixel::Blue), "░");
    assert_eq!(ColorMode::mono_glyph(Pixel::White), "█");
    assert_eq!(ColorMode::mono_glyph(Pixel::Black), " ");
    assert!(mono_level(Pixel::White) > mono_level(Pixel::Green));
    assert_eq!(mono_level(Pixel::Green), mono_level(Pixel::Orange));
    assert_eq!(ColorMode::default(), ColorMode::TrueColor);
}

#[test]
fn codes_round_trip_every_trail_era_and_seed_boundary() {
    for seed in [0, 1, 42, u64::MAX] {
        for trail in ["oregon", "california", "mormon"] {
            for era in ["1843", "1848", "1852", "1866"] {
                let world = WorldSeed { seed, trail: trail.into(), era: era.into() };
                assert_eq!(WorldSeed::parse(&world.code().unwrap()).unwrap(), world);
            }
        }
    }
}

#[test]
fn single_character_changes_are_rejected() {
    let world = WorldSeed { seed: 42, trail: "oregon".into(), era: "1848".into() };
    let code = world.code().unwrap();
    for index in 3..code.len() {
        for &digit in ALPHABET {
            let mut changed = code.as_bytes().to_vec();
            if changed[index] == digit {
                continue;
            }
            changed[index] = digit;
            assert!(WorldSeed::parse(std::str::from_utf8(&changed).unwrap()).is_err());
        }
    }
    assert!(WorldSeed::parse("pt-zzzzzzzzzzzzzzz").is_err());
    assert!(WorldSeed::parse("42").is_err());
}

#[test]
fn codes_accept_case_and_surrounding_space_and_name_each_error() {
    let world = WorldSeed { seed: 7, trail: "mormon".into(), era: "1866".into() };
    let code = world.code().unwrap();
    assert!(code.starts_with("pt-") && code.len() == 18);
    let shouted = format!("  {}\n", code.to_uppercase());
    assert_eq!(WorldSeed::parse(&shouted).unwrap(), world);
    assert_eq!(WorldSeed::parse("42").unwrap_err(), SeedError::MissingPrefix);
    assert_eq!(WorldSeed::parse("pt-0123").unwrap_err(), SeedError::WrongLength);
    assert_eq!(WorldSeed::parse("pt-0123456789abcdi").unwrap_err(), SeedError::InvalidDigit);
    assert_eq!(WorldSeed::parse("pt-zzzzzzzzzzzzzzz").unwrap_err(), SeedError::OutOfRange);
    let unknown = WorldSeed { seed: 1, trail: "santa_fe".into(), era: "1848".into() };
    assert_eq!(unknown.code().unwrap_err(), SeedError::UnknownTrail);
    let late = WorldSeed { seed: 1, trail: "oregon".into(), era: "1900".into() };
    assert_eq!(late.code().unwrap_err(), SeedError::UnknownEra);
    assert_eq!(SeedError::ChecksumMismatch.message(), "Seed checksum does not match; check the code");
}
