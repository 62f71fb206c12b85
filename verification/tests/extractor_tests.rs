use radio_relay::extractor::{
    canonical_atis_directive, canonical_carrier_directive, canonical_weather_directive,
    extract_atis_station_config, extract_atis_station_frequencies, extract_carrier_station_config,
    extract_custom_broadcast_config, extract_weather_station_config, parse_freq_at,
    BroadcastConfig, StationConfig, TtsProvider, WetherStationConfig,
};

fn find<'a>(stations: &'a [StationConfig], name: &str) -> &'a StationConfig {
    stations
        .iter()
        .find(|s| s.name == name.as_bytes().to_vec())
        .expect("station not found")
}

#[test]
fn test_mission_situation_extraction() {
    let freqs = extract_atis_station_frequencies(
        r#"
            ATIS Mineralnye Vody 251.000
            ATIS Batumi 131.5
            ATIS Senaki-Kolkhi 145

            TRAFFIC Batumi 255.00
        "#
        .as_bytes(),
    );

    assert_eq!(freqs.len(), 3);
    assert_eq!(
        *find(&freqs, "Mineralnye Vody"),
        StationConfig {
            name: b"Mineralnye Vody".to_vec(),
            atis: 251_000_000,
            traffic: None,
            tts: None,
        }
    );
    assert_eq!(
        *find(&freqs, "Batumi"),
        StationConfig {
            name: b"Batumi".to_vec(),
            atis: 131_500_000,
            traffic: Some(255_000_000),
            tts: None,
        }
    );
    assert_eq!(
        *find(&freqs, "Senaki-Kolkhi"),
        StationConfig {
            name: b"Senaki-Kolkhi".to_vec(),
            atis: 145_000_000,
            traffic: None,
            tts: None,
        }
    );
}

#[test]
fn test_atis_config_extraction() {
    assert_eq!(
        extract_atis_station_config(b"ATIS Kutaisi 251"),
        Some(StationConfig {
            name: b"Kutaisi".to_vec(),
            atis: 251_000_000,
            traffic: None,
            tts: None,
        })
    );

    assert_eq!(
        extract_atis_station_config(b"ATIS Mineralnye Vody 251"),
        Some(StationConfig {
            name: b"Mineralnye Vody".to_vec(),
            atis: 251_000_000,
            traffic: None,
            tts: None,
        })
    );

    assert_eq!(
        extract_atis_station_config(b"ATIS Senaki-Kolkhi 251"),
        Some(StationConfig {
            name: b"Senaki-Kolkhi".to_vec(),
            atis: 251_000_000,
            traffic: None,
            tts: None,
        })
    );

    assert_eq!(
        extract_atis_station_config(b"ATIS Kutaisi 251.000, TRAFFIC 123.45"),
        Some(StationConfig {
            name: b"Kutaisi".to_vec(),
            atis: 251_000_000,
            traffic: Some(123_450_000),
            tts: None,
        })
    );

    assert_eq!(
        extract_atis_station_config(b"ATIS Kutaisi 251.000, TRAFFIC 123.45, VOICE en-US-Standard-E"),
        Some(StationConfig {
            name: b"Kutaisi".to_vec(),
            atis: 251_000_000,
            traffic: Some(123_450_000),
            tts: Some(TtsProvider::GoogleCloud {
                voice: b"en-US-Standard-E".to_vec()
            }),
        })
    );

    assert_eq!(
        extract_atis_station_config(b"ATIS Kutaisi 251.000, VOICE en-US-Standard-E"),
        Some(StationConfig {
            name: b"Kutaisi".to_vec(),
            atis: 251_000_000,
            traffic: None,
            tts: Some(TtsProvider::GoogleCloud {
                voice: b"en-US-Standard-E".to_vec()
            }),
        })
    );

    assert_eq!(
        extract_atis_station_config(b"ATIS Kutaisi 131.400"),
        Some(StationConfig {
            name: b"Kutaisi".to_vec(),
            atis: 131_400_000,
            traffic: None,
            tts: None,
        })
    );
}

#[test]
fn test_carrier_config_extraction() {
    assert_eq!(
        extract_carrier_station_config(b"CARRIER Mother 251"),
        Some(StationConfig {
            name: b"Mother".to_vec(),
            atis: 251_000_000,
            traffic: None,
            tts: None,
        })
    );

    assert_eq!(
        extract_carrier_station_config(b"CARRIER Mother 131.400"),
        Some(StationConfig {
            name: b"Mother".to_vec(),
            atis: 131_400_000,
            traffic: None,
            tts: None,
        })
    );

    assert_eq!(
        extract_carrier_station_config(b"CARRIER Mother 251.000, VOICE en-US-Standard-E"),
        Some(StationConfig {
            name: b"Mother".to_vec(),
            atis: 251_000_000,
            traffic: None,
            tts: Some(TtsProvider::GoogleCloud {
                voice: b"en-US-Standard-E".to_vec()
            }),
        })
    );
}

#[test]
fn test_cloud_provider_prefix_extraction() {
    assert_eq!(
        extract_atis_station_config(b"ATIS Kutaisi 131.400, VOICE GC:en-US-Standard-D"),
        Some(StationConfig {
            name: b"Kutaisi".to_vec(),
            atis: 131_400_000,
            traffic: None,
            tts: Some(TtsProvider::GoogleCloud {
                voice: b"en-US-Standard-D".to_vec()
            }),
        })
    );

    assert_eq!(
        extract_atis_station_config(b"ATIS Kutaisi 131.400, VOICE AWS:Brian"),
        Some(StationConfig {
            name: b"Kutaisi".to_vec(),
            atis: 131_400_000,
            traffic: None,
            tts: Some(TtsProvider::AmazonWebServices {
                voice: b"Brian".to_vec()
            }),
        })
    );
}

#[test]
fn test_broadcast_config_extraction() {
    assert_eq!(
        extract_custom_broadcast_config(b"BROADCAST 251: Bla bla"),
        Some(BroadcastConfig {
            freq: 251_000_000,
            message: b"Bla bla".to_vec(),
            tts: None,
        })
    );

    assert_eq!(
        extract_custom_broadcast_config(b"BROADCAST 251.000, VOICE AWS:Brian: Bla bla"),
        Some(BroadcastConfig {
            freq: 251_000_000,
            message: b"Bla bla".to_vec(),
            tts: Some(TtsProvider::AmazonWebServices {
                voice: b"Brian".to_vec()
            }),
        })
    );
}

#[test]
fn test_weather_station_config_extraction() {
    assert_eq!(
        extract_weather_station_config(b"WEATHER Shooting Range 251"),
        Some(WetherStationConfig {
            name: b"Shooting Range".to_vec(),
            freq: 251_000_000,
            tts: None,
        })
    );

    assert_eq!(
        extract_weather_station_config(b"WEATHER Coast 131.400"),
        Some(WetherStationConfig {
            name: b"Coast".to_vec(),
            freq: 131_400_000,
            tts: None,
        })
    );

    assert_eq!(
        extract_weather_station_config(b"WEATHER Mountain Range 251.000, VOICE en-US-Standard-E"),
        Some(WetherStationConfig {
            name: b"Mountain Range".to_vec(),
            freq: 251_000_000,
            tts: Some(TtsProvider::GoogleCloud {
                voice: b"en-US-Standard-E".to_vec()
            }),
        })
    );
}

#[test]
fn frequency_tokens_convert_exactly_to_hertz() {
    assert_eq!(parse_freq_at(b"251", 0), Some((251_000_000, 3)));
    assert_eq!(parse_freq_at(b"131.5", 0), Some((131_500_000, 5)));
    assert_eq!(parse_freq_at(b"123.45", 0), Some((123_450_000, 6)));
    assert_eq!(parse_freq_at(b"100.001", 0), Some((100_001_000, 7)));
    assert_eq!(parse_freq_at(b"399.999", 0), Some((399_999_000, 7)));
    // the first digit must be 1 to 3, and three whole digits are required
    assert_eq!(parse_freq_at(b"999", 0), None);
    assert_eq!(parse_freq_at(b"25", 0), None);
}

#[test]
fn malformed_directives_are_rejected() {
    assert_eq!(extract_atis_station_config(b"ATIS Kutaisi"), None);
    assert_eq!(extract_atis_station_config(b"ATIS Kutaisi 251 extra"), None);
    assert_eq!(extract_atis_station_config(b"CARRIER Kutaisi 251"), None);
    assert_eq!(extract_atis_station_config(b"ATIS Kutaisi 251.4567"), None);
    assert_eq!(extract_custom_broadcast_config(b"BROADCAST 251"), None);
    assert_eq!(extract_weather_station_config(b"WEATHER 251"), None);
}

#[test]
fn directives_match_case_insensitively() {
    assert_eq!(
        extract_atis_station_config(b"atis Kutaisi 251"),
        Some(StationConfig {
            name: b"Kutaisi".to_vec(),
            atis: 251_000_000,
            traffic: None,
            tts: None,
        })
    );
    // the briefing-wide scan is case-sensitive on purpose
    assert_eq!(extract_atis_station_frequencies(b"atis Kutaisi 251").len(), 0);
}

#[test]
fn canonical_forms_parse_back_to_the_same_config() {
    let cfg = StationConfig {
        name: b"Kutaisi".to_vec(),
        atis: 251_000_000,
        traffic: Some(123_450_000),
        tts: Some(TtsProvider::GoogleCloud {
            voice: b"en-US-Standard-E".to_vec(),
        }),
    };
    let text = canonical_atis_directive(&cfg);
    assert_eq!(
        text,
        b"ATIS Kutaisi 251.000, TRAFFIC 123.450, VOICE GC:en-US-Standard-E".to_vec()
    );
    assert_eq!(extract_atis_station_config(&text), Some(cfg));

    let cfg = StationConfig {
        name: b"Mother".to_vec(),
        atis: 131_400_000,
        traffic: None,
        tts: Some(TtsProvider::AmazonWebServices {
            voice: b"Brian".to_vec(),
        }),
    };
    let text = canonical_carrier_directive(&cfg);
    assert_eq!(text, b"CARRIER Mother 131.400, VOICE AWS:Brian".to_vec());
    assert_eq!(extract_carrier_station_config(&text), Some(cfg));

    let cfg = StationConfig {
        name: b"Shooting Range".to_vec(),
        atis: 399_999_000,
        traffic: None,
        tts: None,
    };
    let text = canonical_weather_directive(&cfg);
    assert_eq!(text, b"WEATHER Shooting Range 399.999".to_vec());
    let parsed = extract_weather_station_config(&text).unwrap();
    assert_eq!(parsed.name, cfg.name);
    assert_eq!(parsed.freq, cfg.atis);
    assert_eq!(parsed.tts, cfg.tts);
}
