use bevy_craft::block::BlockType;
use bevy_craft::chunk::{Chunk, ChunkPosition};
use bevy_craft::hotbar_ui::{
    convert_r16_to_rgba8, convert_r16i_to_rgba8, convert_rg16_to_rgba8, convert_rg16i_to_rgba8,
    convert_rgb16_to_rgba8, convert_rgba16_to_rgba8, convert_rgba16i_to_rgba8,
    fix_ui_texture_data,
};
use bevy_craft::weather::{
    choose_next_weather, pick_weather, possible_weather_transitions, transition_thresholds, WeatherType,
};
use bevy_craft::world_gen::{
    add_environmental_features, determine_biome_terrain, generate_terrain_column,
    generate_terrain_column_with_biome, mild_climate_biome, representative_height, stone_height_for,
};

#[test]
fn stone_height_matches_float_formula() {
    for h in 0..(1 << 20) {
        let float = if h < 10 {
            (h as f32 * 0.9) as i32
        } else if h < 30 {
            (h as f32 * 0.8) as i32
        } else {
            (h as f32 * 0.6) as i32
        };
        assert_eq!(stone_height_for(h), float, "height {}", h);
    }
}

#[test]
fn biome_terrain_tables() {
    assert_eq!(determine_biome_terrain(12, "desert"), (9, BlockType::Sand, BlockType::Sand));
    assert_eq!(determine_biome_terrain(4, "desert"), (3, BlockType::Grass, BlockType::Dirt));
    assert_eq!(determine_biome_terrain(50, "mountain"), (30, BlockType::Stone, BlockType::Stone));
    assert_eq!(determine_biome_terrain(20, "beach"), (16, BlockType::Grass, BlockType::Dirt));
    assert_eq!(determine_biome_terrain(20, "volcano"), (16, BlockType::Grass, BlockType::Dirt));
    assert_eq!(mild_climate_biome(3), "beach");
    assert_eq!(mild_climate_biome(30), "hills");
    assert_eq!(mild_climate_biome(60), "snowy_mountain");
    assert_eq!(mild_climate_biome(10), "mountain");
}

#[test]
fn terrain_column_layers() {
    let mut c = Chunk::new(ChunkPosition::new(0, 0));
    generate_terrain_column_with_biome(&mut c, 2, 3, 20, "plains");
    assert_eq!(c.data.get_block(2, 0, 3), Some(BlockType::Bedrock));
    assert_eq!(c.data.get_block(2, 1, 3), Some(BlockType::Stone));
    assert_eq!(c.data.get_block(2, 19, 3), Some(BlockType::Stone));
    assert_eq!(c.data.get_block(2, 20, 3), Some(BlockType::Grass));
    assert_eq!(c.data.get_block(2, 21, 3), None);
    assert_eq!(c.data.get_block(3, 5, 3), None);
}

#[test]
fn terrain_column_features() {
    let mut c = Chunk::new(ChunkPosition::new(0, 0));
    generate_terrain_column_with_biome(&mut c, 0, 0, 10, "desert");
    // Sand band from the general features and the desert feature.
    for y in 3..9 {
        assert_eq!(c.data.get_block(0, y, 0), Some(BlockType::Sand), "y {}", y);
    }
    assert_eq!(c.data.get_block(0, 9, 0), Some(BlockType::Sand));
    assert_eq!(c.data.get_block(0, 10, 0), Some(BlockType::Sand));
    let mut f = Chunk::new(ChunkPosition::new(0, 0));
    generate_terrain_column_with_biome(&mut f, 1, 1, 40, "forest");
    assert_eq!(f.data.get_block(1, 37, 1), Some(BlockType::Stone));
    assert_eq!(f.data.get_block(1, 38, 1), Some(BlockType::Dirt));
    assert_eq!(f.data.get_block(1, 39, 1), Some(BlockType::Dirt));
    assert_eq!(f.data.get_block(1, 40, 1), Some(BlockType::Grass));
    let mut h = Chunk::new(ChunkPosition::new(0, 0));
    generate_terrain_column_with_biome(&mut h, 1, 1, 24, "hills");
    assert_eq!(h.data.get_block(1, 21, 1), Some(BlockType::Stone));
    assert_eq!(h.data.get_block(1, 22, 1), Some(BlockType::Stone));
    assert_eq!(h.data.get_block(1, 24, 1), Some(BlockType::Grass));
    let mut low = Chunk::new(ChunkPosition::new(0, 0));
    generate_terrain_column(&mut low, 0, 0, -5);
    assert_eq!(low.data.get_block(0, 0, 0), Some(BlockType::Bedrock));
    assert_eq!(low.data.get_block(0, 3, 0), Some(BlockType::Sand));
    let mut plain = Chunk::new(ChunkPosition::new(0, 0));
    add_environmental_features(&mut plain, 0, 0, 8);
    assert_eq!(plain.data.get_block(0, 7, 0), None);
    assert_eq!(plain.data.get_block(0, 6, 0), Some(BlockType::Sand));
}

#[test]
fn weather_properties() {
    assert_eq!(WeatherType::PartlyCloudy.display_name(), "Partly Cloudy");
    assert!(WeatherType::Snow.has_precipitation());
    assert!(!WeatherType::Fog.has_precipitation());
    assert!(WeatherType::HeavySnow.is_storm());
    assert!(!WeatherType::Rain.is_storm());
    assert_eq!(
        possible_weather_transitions(WeatherType::Clear),
        vec![WeatherType::Clear, WeatherType::PartlyCloudy, WeatherType::Cloudy]
    );
    // Clear stays clear 30% of the time, clouds up partly 50%, fully 20%.
    assert_eq!(pick_weather(WeatherType::Clear, 4), WeatherType::Clear);
    assert_eq!(pick_weather(WeatherType::Clear, 29), WeatherType::Clear);
    assert_eq!(pick_weather(WeatherType::Clear, 30), WeatherType::PartlyCloudy);
    assert_eq!(pick_weather(WeatherType::Clear, 79), WeatherType::PartlyCloudy);
    assert_eq!(pick_weather(WeatherType::Clear, 180), WeatherType::Cloudy);
    assert_eq!(pick_weather(WeatherType::Overcast, 7), WeatherType::Cloudy);
    assert_eq!(pick_weather(WeatherType::Overcast, 57), WeatherType::Rain);
    assert_eq!(pick_weather(WeatherType::Overcast, 85), WeatherType::HeavyRain);
    assert_eq!(pick_weather(WeatherType::Overcast, 99), WeatherType::Thunderstorm);
}

#[test]
fn weather_chances_follow_the_weights() {
    let weathers = [
        WeatherType::Clear,
        WeatherType::PartlyCloudy,
        WeatherType::Cloudy,
        WeatherType::Overcast,
        WeatherType::Rain,
        WeatherType::HeavyRain,
        WeatherType::Thunderstorm,
        WeatherType::Snow,
        WeatherType::HeavySnow,
        WeatherType::Fog,
        WeatherType::Sandstorm,
    ];
    for w in weathers {
        let possible = possible_weather_transitions(w);
        let thresholds = transition_thresholds(w);
        assert_eq!(thresholds.len(), possible.len());
        assert_eq!(*thresholds.last().unwrap(), 100);
        // Every transition is picked by exactly its share of the 100 draws.
        let mut counts = vec![0u32; possible.len()];
        for draw in 0..100usize {
            let picked = pick_weather(w, draw);
            let i = possible.iter().position(|p| *p == picked).unwrap();
            counts[i] += 1;
        }
        let mut before = 0;
        for (i, t) in thresholds.iter().enumerate() {
            assert_eq!(counts[i], t - before);
            before = *t;
        }
    }
}

#[test]
fn random_weather_is_a_transition() {
    let all = [
        WeatherType::Clear,
        WeatherType::PartlyCloudy,
        WeatherType::Cloudy,
        WeatherType::Overcast,
        WeatherType::Rain,
        WeatherType::HeavyRain,
        WeatherType::Thunderstorm,
        WeatherType::Snow,
        WeatherType::HeavySnow,
        WeatherType::Fog,
        WeatherType::Sandstorm,
    ];
    for w in all {
        let possible = possible_weather_transitions(w);
        assert!(possible.contains(&w));
        for _ in 0..20 {
            assert!(possible.contains(&choose_next_weather(w)));
        }
    }
}

#[test]
fn sixteen_bit_conversions() {
    let r16 = [0x34, 0x12, 0xff, 0x80, 0x01];
    assert_eq!(convert_r16_to_rgba8(&r16, (2, 1)), vec![0x12, 0x12, 0x12, 255, 0x80, 0x80, 0x80, 255]);
    let rg16 = [0, 1, 0, 2];
    assert_eq!(convert_rg16_to_rgba8(&rg16, (1, 1)), vec![1, 2, 0, 255]);
    let rgb16 = [0, 1, 0, 2, 0, 3];
    assert_eq!(convert_rgb16_to_rgba8(&rgb16, (1, 1)), vec![1, 2, 3, 255]);
    let rgba16 = [0, 1, 0, 2, 0, 3, 0, 4];
    assert_eq!(convert_rgba16_to_rgba8(&rgba16, (1, 1)), vec![1, 2, 3, 4]);
}

#[test]
fn signed_sixteen_bit_conversions() {
    let min = (-32768i16).to_le_bytes();
    let max = 32767i16.to_le_bytes();
    let zero = 0i16.to_le_bytes();
    let data = [min[0], min[1], max[0], max[1], zero[0], zero[1]];
    let expected = |v: i16| ((v as i32 + 32768) * 255 / 65535) as u8;
    assert_eq!(
        convert_r16i_to_rgba8(&data, (3, 1)),
        vec![0, 0, 0, 255, 255, 255, 255, 255, expected(0), expected(0), expected(0), 255]
    );
    assert_eq!(convert_rg16i_to_rgba8(&data[..4], (1, 1)), vec![0, 255, 0, 255]);
    let four = [min[0], min[1], max[0], max[1], zero[0], zero[1], max[0], max[1]];
    assert_eq!(convert_rgba16i_to_rgba8(&four, (1, 1)), vec![0, 255, expected(0), 255]);
    assert_eq!(expected(0), 127);
}

#[test]
fn ui_texture_fix_decisions() {
    // One 16-bit channel per pixel: converted.
    assert_eq!(fix_ui_texture_data(&[0, 9, 0, 7], 2, 1), Some(vec![9, 9, 9, 255, 7, 7, 7, 255]));
    // Four bytes per pixel: treated as two channels.
    assert_eq!(fix_ui_texture_data(&[0, 9, 0, 7], 1, 1), Some(vec![9, 7, 0, 255]));
    // Eight bytes per pixel: left alone.
    assert_eq!(fix_ui_texture_data(&[0; 8], 1, 1), None);
    // Size not of a 16-bit layout: left alone.
    assert_eq!(fix_ui_texture_data(&[0; 3], 1, 1), None);
    assert_eq!(fix_ui_texture_data(&[0, 1, 0, 2, 0, 3], 1, 1), Some(vec![1, 2, 3, 255]));
}

#[test]
fn representative_heights_of_biomes() {
    assert_eq!(representative_height("desert"), 15);
    assert_eq!(representative_height("snowy_mountain"), 45);
    assert_eq!(representative_height("beach"), 5);
    assert_eq!(representative_height("ocean"), 15);
}
