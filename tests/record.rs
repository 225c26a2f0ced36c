use dashcam_gps::datetime::GpsDateTime;
use dashcam_gps::novatek_gps::{Error, LatitudeHemisphere, LongitudeHemisphere, NovatekGps};

struct Fields {
    hour: u32,
    minute: u32,
    second: u32,
    years: u32,
    month: u32,
    day: u32,
    lock: u8,
    lat_hemi: u8,
    lon_hemi: u8,
    lat: f32,
    lon: f32,
    speed: f32,
    bearing: f32,
}

fn fields() -> Fields {
    Fields {
        hour: 8,
        minute: 15,
        second: 26,
        years: 21,
        month: 8,
        day: 9,
        lock: b'A',
        lat_hemi: b'N',
        lon_hemi: b'W',
        lat: 4740.1538,
        lon: 11706.676,
        speed: 12.5,
        bearing: 271.25,
    }
}

fn record(f: &Fields) -> Vec<u8> {
    let mut b = vec![0u8; 60];
    b[0..4].copy_from_slice(&60u32.to_be_bytes());
    b[4..8].copy_from_slice(b"free");
    b[8..12].copy_from_slice(b"GPS ");
    b[16..20].copy_from_slice(&f.hour.to_le_bytes());
    b[20..24].copy_from_slice(&f.minute.to_le_bytes());
    b[24..28].copy_from_slice(&f.second.to_le_bytes());
    b[28..32].copy_from_slice(&f.years.to_le_bytes());
    b[32..36].copy_from_slice(&f.month.to_le_bytes());
    b[36..40].copy_from_slice(&f.day.to_le_bytes());
    b[40] = f.lock;
    b[41] = f.lat_hemi;
    b[42] = f.lon_hemi;
    b[44..48].copy_from_slice(&f.lat.to_le_bytes());
    b[48..52].copy_from_slice(&f.lon.to_le_bytes());
    b[52..56].copy_from_slice(&f.speed.to_le_bytes());
    b[56..60].copy_from_slice(&f.bearing.to_le_bytes());
    b
}

#[test]
fn valid_record_decodes_every_field() {
    let f = fields();
    let g = NovatekGps::new(record(&f)).unwrap();
    assert_eq!(g.box_size(), 60);
    assert_eq!(g.box_type(), "free");
    assert_eq!(g.magic_word(), "GPS ");
    assert_eq!(g.hour(), 8);
    assert_eq!(g.minute(), 15);
    assert_eq!(g.second(), 26);
    assert_eq!(g.year(), 2021);
    assert_eq!(g.month(), 8);
    assert_eq!(g.day(), 9);
    assert!(g.sat_lock());
    assert_eq!(g.latitude_hemisphere(), Ok(LatitudeHemisphere::North));
    assert_eq!(g.longitude_hemisphere(), Ok(LongitudeHemisphere::West));
    assert_eq!(f32::from_bits(g.latitude()), 4740.1538);
    assert_eq!(f32::from_bits(g.longitude()), 11706.676);
    assert_eq!(f32::from_bits(g.speed()), 12.5);
    assert_eq!(f32::from_bits(g.bearing()), 271.25);
    let t = g.datetime().unwrap();
    assert_eq!(
        t,
        GpsDateTime { year: 2021, month: 8, day: 9, hour: 8, minute: 15, second: 26 }
    );
}

#[test]
fn record_longer_than_minimum_is_accepted() {
    let mut b = record(&fields());
    b.extend_from_slice(&[7u8; 20]);
    b[0..4].copy_from_slice(&80u32.to_be_bytes());
    assert!(NovatekGps::new(b).is_ok());
}

#[test]
fn short_buffers_are_missing_bytes() {
    assert_eq!(NovatekGps::new(vec![]).unwrap_err(), Error::MissingBytes);
    assert_eq!(NovatekGps::new(vec![0u8; 59]).unwrap_err(), Error::MissingBytes);
    let mut b = record(&fields());
    b.truncate(59);
    b[0..4].copy_from_slice(&59u32.to_be_bytes());
    assert_eq!(NovatekGps::new(b).unwrap_err(), Error::MissingBytes);
}

#[test]
fn declared_size_must_match_length() {
    let mut b = record(&fields());
    b[0..4].copy_from_slice(&0x0102_0304u32.to_be_bytes());
    assert_eq!(
        NovatekGps::new(b).unwrap_err(),
        Error::InvalidBoxSize(60, 0x0102_0304)
    );
    let mut b = record(&fields());
    b[3] = 61;
    assert_eq!(NovatekGps::new(b).unwrap_err(), Error::InvalidBoxSize(60, 61));
}

#[test]
fn wrong_box_type_is_reported() {
    let mut b = record(&fields());
    b[4..8].copy_from_slice(b"moov");
    assert_eq!(
        NovatekGps::new(b).unwrap_err(),
        Error::InvalidBoxType("moov".to_string(), "free")
    );
}

#[test]
fn non_utf8_tag_is_reported_as_wrong_tag() {
    let mut b = record(&fields());
    b[4] = 0xFF;
    assert_eq!(
        NovatekGps::new(b.clone()).unwrap_err(),
        Error::InvalidBoxType("\u{FFFD}ree".to_string(), "free")
    );
    let g = NovatekGps::new_unchecked(b);
    assert_eq!(g.box_type(), "\u{FFFD}ree");
    assert_eq!(
        g.check_box_type(),
        Err(Error::InvalidBoxType("\u{FFFD}ree".to_string(), "free"))
    );
    let mut b = record(&fields());
    b[9] = 0xC3;
    assert_eq!(
        NovatekGps::new(b.clone()).unwrap_err(),
        Error::InvalidMagicWord("G\u{FFFD}S ".to_string(), "GPS ")
    );
    assert_eq!(
        NovatekGps::new_unchecked(b).check_magic_word(),
        Err(Error::InvalidMagicWord("G\u{FFFD}S ".to_string(), "GPS "))
    );
}

#[test]
fn wrong_magic_word_is_reported() {
    let mut b = record(&fields());
    b[8..12].copy_from_slice(b"GPSX");
    assert_eq!(
        NovatekGps::new(b).unwrap_err(),
        Error::InvalidMagicWord("GPSX".to_string(), "GPS ")
    );
}

#[test]
fn missing_fix_is_reported() {
    let mut f = fields();
    f.lock = b'V';
    assert_eq!(NovatekGps::new(record(&f)).unwrap_err(), Error::NoSatLock);
}

#[test]
fn bad_hemispheres_are_reported() {
    let mut f = fields();
    f.lat_hemi = b'X';
    assert_eq!(NovatekGps::new(record(&f)).unwrap_err(), Error::InvalidHemisphere);
    let mut f = fields();
    f.lon_hemi = b'n';
    assert_eq!(NovatekGps::new(record(&f)).unwrap_err(), Error::InvalidHemisphere);
}

#[test]
fn first_failing_check_wins() {
    let mut f = fields();
    f.lock = 0;
    f.lat_hemi = 0;
    let mut b = record(&f);
    b[8..12].copy_from_slice(b"abcd");
    b[0..4].copy_from_slice(&7u32.to_be_bytes());
    assert_eq!(NovatekGps::new(b).unwrap_err(), Error::InvalidBoxSize(60, 7));
}

#[test]
fn individual_checks() {
    let g = NovatekGps::new_unchecked(record(&fields()));
    assert_eq!(g.check_len(), Ok(()));
    assert_eq!(g.check_box_size(), Ok(()));
    assert_eq!(g.check_box_type(), Ok(()));
    assert_eq!(g.check_magic_word(), Ok(()));
    assert_eq!(g.check_sat_lock(), Ok(()));
    assert_eq!(g.check_hemisphere(), Ok(()));
    let g = NovatekGps::new_unchecked(vec![0u8; 50]);
    assert_eq!(g.check_len(), Err(Error::MissingBytes));
    assert_eq!(g.check_box_size(), Err(Error::InvalidBoxSize(50, 0)));
    assert_eq!(g.check_sat_lock(), Err(Error::NoSatLock));
    assert_eq!(g.check_hemisphere(), Err(Error::InvalidHemisphere));
}

#[test]
fn southern_and_eastern_hemispheres() {
    let mut f = fields();
    f.lat_hemi = b'S';
    f.lon_hemi = b'E';
    let g = NovatekGps::new(record(&f)).unwrap();
    assert_eq!(g.latitude_hemisphere(), Ok(LatitudeHemisphere::South));
    assert_eq!(g.longitude_hemisphere(), Ok(LongitudeHemisphere::East));
    assert_eq!(LatitudeHemisphere::South.name(), "South");
    assert_eq!(LongitudeHemisphere::East.name(), "East");
    assert_eq!(LatitudeHemisphere::North.name(), "North");
    assert_eq!(LongitudeHemisphere::West.name(), "West");
}

#[test]
fn integers_are_read_with_their_byte_order() {
    let mut b = record(&fields());
    b[16..20].copy_from_slice(&[1, 2, 0, 0]);
    let g = NovatekGps::new_unchecked(b);
    assert_eq!(g.hour(), 513);
    let mut b = vec![0u8; 8];
    b[0..4].copy_from_slice(&[0, 0, 1, 2]);
    assert_eq!(NovatekGps::new_unchecked(b).box_size(), 258);
}

#[test]
fn nonexistent_dates_have_no_timestamp() {
    let mut f = fields();
    f.month = 2;
    f.day = 30;
    let g = NovatekGps::new(record(&f)).unwrap();
    assert_eq!(g.datetime(), None);
    let mut f = fields();
    f.hour = 24;
    assert_eq!(NovatekGps::new(record(&f)).unwrap().datetime(), None);
    let mut f = fields();
    f.years = u32::MAX;
    assert_eq!(NovatekGps::new(record(&f)).unwrap().datetime(), None);
    let mut f = fields();
    f.years = 24;
    f.month = 2;
    f.day = 29;
    let t = NovatekGps::new(record(&f)).unwrap().datetime().unwrap();
    assert_eq!((t.year, t.month, t.day), (2024, 2, 29));
}
