use libblood::agari::{check_ankan_in_tenpai, Agari, AgariCalculator, FanConfig};
use libblood::hand::hand;
use libblood::mjai::Suit;
use libblood::tile::Tile;

#[test]
fn ankan_in_tenpai() {
        // Test ankan validity in tenpai state
        let test_one = |tehai_str, tile_str: &str, len_div3, strict, expected| {
            let mut tehai = hand(tehai_str).unwrap();
            let tile: Tile = tile_str.parse().unwrap();
            tehai[tile.as_usize()] += 1;
            assert_eq!(
                check_ankan_in_tenpai(&tehai, len_div3, tile, strict, None),
                expected,
                "failed for {tehai_str} + {tile_str}, expected {expected}",
            );
        };

        // Always positive: ankan doesn't affect tenpai
        // 血战到底无字牌：用孤立的数牌 (isolated kotsu/pair) 替代原日麻 z 字牌
        test_one("12345m 567s 11p 999p", "9p", 4, true, true);
        test_one("12345m 444567s 11p", "4s", 4, true, true);
        test_one("22m 11112356p 444s", "4s", 4, true, true);

        // Always negative: ankan breaks tenpai (loses waiting tiles)
        test_one("123456m 4445s 999p", "4s", 4, true, false);
        test_one("123456m 4445s 999p", "4s", 4, false, false);

        // Shape of tenpai changes (strict vs non-strict)
        test_one("1113444p 999s", "1p", 3, true, false);
        test_one("1113444p 999s", "1p", 3, false, true);
        test_one("1113444p 999s", "4p", 3, true, false);
        test_one("1113444p 999s", "9s", 3, true, true);

        // Shape of agari changes
        test_one("23m 999p 33345666s", "3s", 4, true, false);
        test_one("23m 999p 33345666s", "6s", 4, true, false);
        test_one("23m 999p 33345666s", "6s", 4, false, true);
        test_one("23m 999p 33345666s", "9p", 4, true, true);

        // 血战到底无九莲宝灯，但此处仅检查听牌结构，不检查役种
        test_one("1113445678999m", "1m", 4, true, true);
        test_one("1113445678999m", "9m", 4, true, false);
    }

#[test]
fn agari_calc() {
        
        // Test 1: 平胡 + 自摸 + 门清 (PingHu + Tsumo + MenQing) - 3番
        // 14 tiles: 123456m(6) + 789p(3) + 345s(3) + 22m(2) = 14
        let tehai = hand("123456m 789p 345s 22m").unwrap();
        let calc = AgariCalculator {
            tehai: &tehai,

            pons: &[],
            minkans: &[],
            ankans: &[],
            winning_tile: 1,
            is_ron: false, // 自摸
            ding_que: None,
            is_after_kan: false,
            is_kan_discard: false,
            is_chankan: false,
            exclude_gen_tile: None,
            is_haidi: false,
            is_tianhu: false,
            is_dihu: false,
            fan_config: FanConfig::default(),
        };
        let agari = calc.agari().unwrap();
        // 自摸 + 平胡 + 门清 = 1 + 1 + 1 = 3番
        assert_eq!(agari, Agari::Fan(3));
        
        // Test 2: 平胡 + 荣和 + 门清 (Ron, MenQing) - 2番
        let tehai = hand("123456m 789p 345s 22m").unwrap();
        let calc = AgariCalculator {
            tehai: &tehai,

            pons: &[],
            minkans: &[],
            ankans: &[],
            winning_tile: 1,
            is_ron: true, // 荣和
            ding_que: None,
            is_after_kan: false,
            is_kan_discard: false,
            is_chankan: false,
            exclude_gen_tile: None,
            is_haidi: false,
            is_tianhu: false,
            is_dihu: false,
            fan_config: FanConfig::default(),
        };
        let agari = calc.agari().unwrap();
        // 荣和 + 平胡 + 门清 = 1 + 1 = 2番
        assert_eq!(agari, Agari::Fan(2));
        
        // Test 2b: 门清（MenQing）无副露 +1番：同一型无副露 3番 vs 有 1 碰 2番
        // 14 tiles: 123456m(6) + 789p(3) + 345s(3) + 22m(2) = 14
        let tehai_mq = hand("123456m 789p 345s 22m").unwrap();
        let c_mq = AgariCalculator { tehai: &tehai_mq, pons: &[], minkans: &[], ankans: &[], winning_tile: 1, is_ron: false, ding_que: None, is_after_kan: false, is_kan_discard: false, is_chankan: false, exclude_gen_tile: None, is_haidi: false, is_tianhu: false, is_dihu: false, fan_config: FanConfig::default() };
        assert_eq!(c_mq.agari().unwrap(), Agari::Fan(3), "无副露=门清+1");
        // 11 tiles concealed + 1 pon (3 tiles) = 14 total
        let tehai_f = hand("123456m 789p 22s").unwrap();
        let c_f = AgariCalculator { tehai: &tehai_f, pons: &[20], minkans: &[], ankans: &[], winning_tile: 19, is_ron: false, ding_que: None, is_after_kan: false, is_kan_discard: false, is_chankan: false, exclude_gen_tile: None, is_haidi: false, is_tianhu: false, is_dihu: false, fan_config: FanConfig::default() };
        assert_eq!(c_f.agari().unwrap(), Agari::Fan(2), "有副露无门清");
        
        // Test 3: 七对 (QiDui) - 2番
        let tehai = hand("11223344556677m").unwrap();
        let calc = AgariCalculator {
            tehai: &tehai,

            pons: &[],
            minkans: &[],
            ankans: &[],
            winning_tile: 6,
            is_ron: false, // 自摸
            ding_que: None,
            is_after_kan: false,
            is_kan_discard: false,
            is_chankan: false,
            exclude_gen_tile: None,
            is_haidi: false,
            is_tianhu: false,
            is_dihu: false,
            fan_config: FanConfig::default(),
        };
        let agari = calc.agari().unwrap();
        // 自摸 + 平胡 + 门清 + 七对 = 1 + 1 + 1 + 2 = 5番（封顶）
        assert_eq!(agari, Agari::Fan(5));
        
        // Test 4: 碰碰胡 (ToiToi) - 1番
        // 14 tiles: 111m(3)+333m(3)+555m(3)+999p(3)+77m(2) = 14
        let tehai = hand("111333555m 999p 77m").unwrap();
        let calc = AgariCalculator {
            tehai: &tehai,

            pons: &[],
            minkans: &[],
            ankans: &[],
            winning_tile: 17,
            is_ron: false, // 自摸
            ding_que: None,
            is_after_kan: false,
            is_kan_discard: false,
            is_chankan: false,
            exclude_gen_tile: None,
            is_haidi: false,
            is_tianhu: false,
            is_dihu: false,
            fan_config: FanConfig::default(),
        };
        let agari = calc.agari().unwrap();
        // 自摸 + 平胡 + 门清 + 碰碰胡 = 1 + 1 + 1 + 1 = 4番
        assert_eq!(agari, Agari::Fan(4));
        
        // Test 5: 清一色 (QingYiSe) - 2番
        // 14 tiles: 1m*3 + 2m + 3m + 4m + 5m + 6m + 7m + 8m + 9m*3 + 9m = 14
        // Divisions: 111m(kotsu) + 234m + 567m + 89m+9m(pair?) → no
        // Better: 111m(kotsu) + 234m(shuntsu) + 567m(shuntsu) + 999m(kotsu) + 8m?? 
        // Actually: 111m + 2345m + 678m + 999m = 3+4+3+3 = 13, not standard.
        // Use: 1234567m(7) + 89m(2) + 999m(3) + 11m(2) = 14
        let tehai = hand("1234567m 89m 999m 11m").unwrap();
        let calc = AgariCalculator {
            tehai: &tehai,

            pons: &[],
            minkans: &[],
            ankans: &[],
            winning_tile: 8,
            is_ron: false, // 自摸
            ding_que: None,
            is_after_kan: false,
            is_kan_discard: false,
            is_chankan: false,
            exclude_gen_tile: None,
            is_haidi: false,
            is_tianhu: false,
            is_dihu: false,
            fan_config: FanConfig::default(),
        };
        let agari = calc.agari().unwrap();
        // 自摸 + 平胡 + 门清 + 清一色 = 1 + 1 + 1 + 2 = 5番（封顶）
        assert_eq!(agari, Agari::Fan(5));
        
        // Test 6: 带幺九 (DaiYaoJiu) - 3番
        let tehai = hand("111999m 111999p 11s").unwrap();
        let calc = AgariCalculator {
            tehai: &tehai,

            pons: &[],
            minkans: &[],
            ankans: &[],
            winning_tile: 18,
            is_ron: false, // 自摸
            ding_que: None,
            is_after_kan: false,
            is_kan_discard: false,
            is_chankan: false,
            exclude_gen_tile: None,
            is_haidi: false,
            is_tianhu: false,
            is_dihu: false,
            fan_config: FanConfig::default(),
        };
        let agari = calc.agari().unwrap();
        // 自摸 + 平胡 + 门清 + 带幺九 = 1+1+1+3 = 6番封顶5
        assert_eq!(agari, Agari::Fan(5));
        
        // Test 6b: 断幺九 (DuanYaoJiu) - 1番（所有组合仅2–8，与带幺九互斥）
        let tehai = hand("234m 345p 456s 678m 22s").unwrap();
        let calc = AgariCalculator {
            tehai: &tehai,
            pons: &[],
            minkans: &[],
            ankans: &[],
            winning_tile: 19,
            is_ron: false,
            ding_que: None,
            is_after_kan: false,
            is_kan_discard: false,
            is_chankan: false,
            exclude_gen_tile: None,
            is_haidi: false,
            is_tianhu: false,
            is_dihu: false,
            fan_config: FanConfig::default(),
        };
        let agari = calc.agari().unwrap();
        // 自摸 + 平胡 + 门清 + 断幺九 = 1 + 1 + 1 + 1 = 4番
        assert_eq!(agari, Agari::Fan(4));
        
        // Test 6c: 一条龙 (YiTiaoLong) - 1番（同一花色含 123、456、789 三副顺子）
        let tehai = hand("123456789m 22p 345s").unwrap();
        let calc = AgariCalculator {
            tehai: &tehai,
            pons: &[],
            minkans: &[],
            ankans: &[],
            winning_tile: 22,
            is_ron: false,
            ding_que: None,
            is_after_kan: false,
            is_kan_discard: false,
            is_chankan: false,
            exclude_gen_tile: None,
            is_haidi: false,
            is_tianhu: false,
            is_dihu: false,
            fan_config: FanConfig::default(),
        };
        let agari = calc.agari().unwrap();
        // 自摸 + 平胡 + 门清 + 一条龙 = 1 + 1 + 1 + 1 = 4番（123m 456m 789m 22p 345s）
        assert_eq!(agari, Agari::Fan(4));
        
        // Test 6d: 夹心五 (JiaXinWu) - 1番（46 听 5，和 5 成顺 456）
        let tehai = hand("123m 789p 456s 22m 345p").unwrap();
        let calc = AgariCalculator {
            tehai: &tehai,
            pons: &[],
            minkans: &[],
            ankans: &[],
            winning_tile: 22,
            is_ron: false,
            ding_que: None,
            is_after_kan: false,
            is_kan_discard: false,
            is_chankan: false,
            exclude_gen_tile: None,
            is_haidi: false,
            is_tianhu: false,
            is_dihu: false,
            fan_config: FanConfig::default(),
        };
        let agari = calc.agari().unwrap();
        // 自摸 + 平胡 + 门清 + 夹心五 = 1 + 1 + 1 + 1 = 4番（456s 为 46 听 5 和出）
        assert_eq!(agari, Agari::Fan(4));
        
        // Test 7: 杠上花 (GangShangHua) - 1番
        // 14 tiles: 123456m(6) + 789p(3) + 345s(3) + 22m(2) = 14
        let tehai = hand("123456m 789p 345s 22m").unwrap();
        let calc = AgariCalculator {
            tehai: &tehai,

            pons: &[],
            minkans: &[],
            ankans: &[],
            winning_tile: 1,
            is_ron: false, // 自摸
            ding_que: None,
            is_after_kan: true, // 杠上花
            is_kan_discard: false,
            is_chankan: false,
            exclude_gen_tile: None,
            is_haidi: false,
            is_tianhu: false,
            is_dihu: false,
            fan_config: FanConfig::default(),
        };
        let agari = calc.agari().unwrap();
        // 自摸 + 平胡 + 门清 + 杠上花 = 1 + 1 + 1 + 1 = 4番
        assert_eq!(agari, Agari::Fan(4));
        
        // Test 8: 杠上炮 (GangShangPao) - 1番
        let tehai = hand("123456m 789p 345s 22m").unwrap();
        let calc = AgariCalculator {
            tehai: &tehai,

            pons: &[],
            minkans: &[],
            ankans: &[],
            winning_tile: 1,
            is_ron: true, // 荣和
            ding_que: None,
            is_after_kan: false,
            is_kan_discard: true, // 杠上炮
            is_chankan: false,
            exclude_gen_tile: None,
            is_haidi: false,
            is_tianhu: false,
            is_dihu: false,
            fan_config: FanConfig::default(),
        };
        let agari = calc.agari().unwrap();
        // 荣和 + 平胡 + 门清 + 杠上炮 = 1 + 1 + 1 = 3番
        assert_eq!(agari, Agari::Fan(3));
        
        // Test 9: 四归一 (SiGuiYi / 根) - 1番/根
        let tehai = hand("111123456m 789p 11s").unwrap();
        let calc = AgariCalculator {
            tehai: &tehai,

            pons: &[],
            minkans: &[],
            ankans: &[],
            winning_tile: 0,
            is_ron: false, // 自摸
            ding_que: None,
            is_after_kan: false,
            is_kan_discard: false,
            is_chankan: false,
            exclude_gen_tile: None,
            is_haidi: false,
            is_tianhu: false,
            is_dihu: false,
            fan_config: FanConfig::default(),
        };
        let agari = calc.agari().unwrap();
        // 自摸 + 平胡 + 门清 + 四归一(1根) = 1 + 1 + 1 + 1 = 4番
        assert_eq!(agari, Agari::Fan(4));
        
        // Test 10: 金钩钓 (JinGouDiao) - 4番 (4 fuuro + tanki wait，有副露故无门清)
        // 使用混合花色的碰，避免意外触发清一色
        let tehai = hand("11m").unwrap();
        let calc = AgariCalculator {
            tehai: &tehai,

            pons: &[1, 11, 21, 4], // 4 pons（混合花色）
            minkans: &[],
            ankans: &[],
            winning_tile: 0, // tanki wait
            is_ron: false, // 自摸
            ding_que: None,
            is_after_kan: false,
            is_kan_discard: false,
            is_chankan: false,
            exclude_gen_tile: None,
            is_haidi: false,
            is_tianhu: false,
            is_dihu: false,
            fan_config: FanConfig::default(),
        };
        let agari = calc.agari().unwrap();
        // 自摸 + 平胡 + 碰碰胡 + 金钩钓 = 1 + 1 + 1 + 1 = 4番（有副露故无门清，混合花色无清一色）
        assert_eq!(agari, Agari::Fan(4));
        
        // Test 12: Fan cap at 5
        // 自摸 + 平胡 + 七对 + 清一色 = 1 + 1 + 2 + 2 = 6番，但封顶5番
        let tehai = hand("11223344556677m").unwrap();
        let calc = AgariCalculator {
            tehai: &tehai,

            pons: &[],
            minkans: &[],
            ankans: &[],
            winning_tile: 6,
            is_ron: false, // 自摸
            ding_que: Some(Suit::Pin), // 定缺筒子
            is_after_kan: false,
            is_kan_discard: false,
            is_chankan: false,
            exclude_gen_tile: None,
            is_haidi: false,
            is_tianhu: false,
            is_dihu: false,
            fan_config: FanConfig::default(),
        };
        let agari = calc.agari().unwrap();
        // 应该封顶在5番（自摸+平胡+门清+七对+清一色 = 7番封顶5）
        assert_eq!(agari, Agari::Fan(5));
        
        // Test 13: Ding Que check - cannot agari if hand has ding_que suit tiles
        // 14 tiles: 123456m(6) + 789p(3) + 345s(3) + 22p(2) = 14, has pin tiles
        let tehai = hand("123456m 789p 345s 22p").unwrap(); // Has pin tiles
        let calc = AgariCalculator {
            tehai: &tehai,

            pons: &[],
            minkans: &[],
            ankans: &[],
            winning_tile: 10,
            is_ron: false,
            ding_que: Some(Suit::Pin), // 定缺筒子，但手牌有筒子
            is_after_kan: false,
            is_kan_discard: false,
            is_chankan: false,
            exclude_gen_tile: None,
            is_haidi: false,
            is_tianhu: false,
            is_dihu: false,
            fan_config: FanConfig::default(),
        };
        // 应该不能和牌（花猪）
        assert!(!calc.has_yaku());
        
        // Test 14: 抢杠 (Chankan) - 2番 (平胡1番 + 抢杠1番)
        // 抢杠：在别人加杠时，如果听的牌正好是加杠的牌，可以抢杠和牌
        // 抢杠和杠上炮是不同的：
        // - 抢杠：在别人加杠时抢杠和牌，+1番（平胡1番 + 抢杠1番 = 2番）
        // - 杠上炮：其他玩家杠牌后打出的牌和牌，+1番（平胡1番 + 杠上炮1番 = 2番）
        // 抢杠时，被抢杠的玩家的根不应该计算（因为加杠的牌被抢走了）
        // 14 tiles: 123456m(6) + 789p(3) + 345s(3) + 11s(2) = 14, winning tile 1s already in tehai
        let tehai = hand("123456m 789p 345s 11s").unwrap();
        let calc = AgariCalculator {
            tehai: &tehai,

            pons: &[],
            minkans: &[],
            ankans: &[],
            winning_tile: 18, // 听的牌
            is_ron: true, // 荣和
            ding_que: None,
            is_after_kan: false,
            is_kan_discard: false, // 抢杠不是杠上炮
            is_chankan: true, // 这是抢杠
            exclude_gen_tile: None,
            is_haidi: false,
            is_tianhu: false,
            is_dihu: false,
            fan_config: FanConfig::default(),
        };
        let agari = calc.agari().unwrap();
        // 荣和 + 平胡 + 门清 + 抢杠 = 1 + 1 + 1 = 3番
        assert_eq!(agari, Agari::Fan(3));
        
        // Test 15: 番数叠加 - 清一色 + 自摸 + 平胡 + 门清 = 5番（封顶）
        // 清一色（2番）+ 自摸（1番）+ 平胡（1番）+ 门清（1番）= 5番（封顶）
        // 14 tiles: 111m(3) + 234m(3) + 567m(3) + 999m(3) + 88m(2) = 14
        let tehai = hand("111234567m 88m 999m").unwrap();
        let calc = AgariCalculator {
            tehai: &tehai,

            pons: &[],
            minkans: &[],
            ankans: &[],
            winning_tile: 8,
            is_ron: false, // 自摸
            ding_que: None,
            is_after_kan: false,
            is_kan_discard: false,
            is_chankan: false,
            exclude_gen_tile: None,
            is_haidi: false,
            is_tianhu: false,
            is_dihu: false,
            fan_config: FanConfig::default(),
        };
        let agari = calc.agari().unwrap();
        // 自摸 + 平胡 + 门清 + 清一色 = 1 + 1 + 1 + 2 = 5番（封顶）
        assert_eq!(agari, Agari::Fan(5));
        
        // Test 16: 番数叠加 - 带幺九 + 自摸 + 平胡 + 门清 = 5番（封顶）
        // 带幺九（3番）+ 自摸（1番）+ 平胡（1番）= 5番（封顶）
        let tehai = hand("111999m 111999p 11s").unwrap();
        let calc = AgariCalculator {
            tehai: &tehai,

            pons: &[],
            minkans: &[],
            ankans: &[],
            winning_tile: 18,
            is_ron: false, // 自摸
            ding_que: None,
            is_after_kan: false,
            is_kan_discard: false,
            is_chankan: false,
            exclude_gen_tile: None,
            is_haidi: false,
            is_tianhu: false,
            is_dihu: false,
            fan_config: FanConfig::default(),
        };
        let agari = calc.agari().unwrap();
        // 自摸 + 平胡 + 门清 + 带幺九 = 1+1+1+3 = 6番封顶5
        assert_eq!(agari, Agari::Fan(5));
        
        // Test 17: 互斥番数 - 七对与碰碰胡互斥
        // 七对（2番）与碰碰胡（1番）互斥，应该只计算七对
        let tehai = hand("11223344556677m").unwrap();
        let calc = AgariCalculator {
            tehai: &tehai,

            pons: &[],
            minkans: &[],
            ankans: &[],
            winning_tile: 6,
            is_ron: false, // 自摸
            ding_que: None,
            is_after_kan: false,
            is_kan_discard: false,
            is_chankan: false,
            exclude_gen_tile: None,
            is_haidi: false,
            is_tianhu: false,
            is_dihu: false,
            fan_config: FanConfig::default(),
        };
        let agari = calc.agari().unwrap();
        // 自摸 + 平胡 + 门清 + 七对 = 1 + 1 + 1 + 2 = 5番（封顶，不是碰碰胡）
        assert_eq!(agari, Agari::Fan(5));
        
        // Test 18: 金钩钓 - 4副露 + 单钓 = 4番（有副露故无门清）
        // 自摸 + 平胡 + 碰碰胡 + 金钩钓 = 1 + 1 + 1 + 1 = 4番（混合花色无清一色）
        let tehai = hand("11m").unwrap();
        let calc = AgariCalculator {
            tehai: &tehai,

            pons: &[1, 11, 21, 4], // 4个碰（混合花色）
            minkans: &[],
            ankans: &[],
            winning_tile: 0, // 单钓1m
            is_ron: false, // 自摸
            ding_que: None,
            is_after_kan: false,
            is_kan_discard: false,
            is_chankan: false,
            exclude_gen_tile: None,
            is_haidi: false,
            is_tianhu: false,
            is_dihu: false,
            fan_config: FanConfig::default(),
        };
        let agari = calc.agari().unwrap();
        // 自摸 + 平胡 + 金钩钓 = 1 + 1 + 2 = 4番
        assert_eq!(agari, Agari::Fan(4));
        
        // Test 19: 四归一（根）- 1个根
        // 14 tiles: 1m*4 + 2m + 3m*2 + 4m + 5m + 6m + 7m + 8m + 1p*2 = 14
        // Decomposition: 11p(pair) + 111m(kotsu) + 123m(shuntsu) + 345m(shuntsu) + 678m(shuntsu)
        // No 一条龙 (123+345+678 ≠ 123+456+789)
        let tehai = hand("1111m 23m 345m 678m 11p").unwrap();
        let calc = AgariCalculator {
            tehai: &tehai,

            pons: &[],
            minkans: &[],
            ankans: &[],
            winning_tile: 9,
            is_ron: false, // 自摸
            ding_que: None,
            is_after_kan: false,
            is_kan_discard: false,
            is_chankan: false,
            exclude_gen_tile: None,
            is_haidi: false,
            is_tianhu: false,
            is_dihu: false,
            fan_config: FanConfig::default(),
        };
        let agari = calc.agari().unwrap();
        // 自摸 + 平胡 + 门清 + 四归一（1根）= 1 + 1 + 1 + 1 = 4番
        assert_eq!(agari, Agari::Fan(4));
        
        // Test 20: 番数叠加 - 清一色+碰碰胡+自摸+平胡+门清 = 5番（封顶）
        // 清一色（2番）+ 碰碰胡（1番）+ 自摸（1番）+ 平胡（1番）+ 门清（1番）= 6番 → 封顶5
        // 14 tiles: 111m(3)+333m(3)+555m(3)+777m(3)+99m(2) = 14
        let tehai = hand("111333555777m 99m").unwrap();
        let calc = AgariCalculator {
            tehai: &tehai,

            pons: &[],
            minkans: &[],
            ankans: &[],
            winning_tile: 8,
            is_ron: false, // 自摸
            ding_que: None,
            is_after_kan: false,
            is_kan_discard: false,
            is_chankan: false,
            exclude_gen_tile: None,
            is_haidi: false,
            is_tianhu: false,
            is_dihu: false,
            fan_config: FanConfig::default(),
        };
        let agari = calc.agari().unwrap();
        // 自摸 + 平胡 + 清一色 + 碰碰胡 = 1 + 1 + 2 + 1 = 5番（封顶）
        assert_eq!(agari, Agari::Fan(5));
        

        // These tests are intentionally unreachable to preserve them for future reference
        }

#[test]
fn test_long_qidui() {
        // Construct 1122334455m 1111p (Long Qi Dui / Seven Pairs with 4 same tiles)
        let mut tehai = [0u8; 27];
        // 1122334455m -> 2 of each 1m-5m (indices 0-4)
        for i in 0..5 {
            tehai[i] = 2;
        }
        // 1111p -> 4 of 1p (index 9)
        tehai[9] = 4;
        
        let calc = AgariCalculator {
            tehai: &tehai,

            pons: &[],
            minkans: &[],
            ankans: &[],
            winning_tile: 9, // 1p (index 9)
            is_ron: false, // Tsumo
            ding_que: None,
            is_after_kan: false,
            is_kan_discard: false,
            is_chankan: false,
            exclude_gen_tile: None,
            is_haidi: false,
            is_tianhu: false,
            is_dihu: false,
            fan_config: FanConfig::default(),
        };
        
        let agari = calc.agari(); 
        
        // Should be Agari
        // Expected Fan Calculation:
        // Base (PingHu) = 1
        // Tsumo = 1
        // QiDui = 2
        // Root (SiGuiYi) = 1 (for 1111p)
        // Total = 5 Fan
        
        assert!(agari.is_some(), "Long Qi Dui (4 same tiles) should be valid Agari");
        if let Some(Agari::Fan(fan)) = agari {
             println!("Detected Fan: {}", fan);
             assert!(fan >= 4, "Should be at least 4 Fan (Base+QiDui+Root)");
        }
    }

#[test]
fn gen_counts_from_fuuro_plus_hand() {
        // Fuuro pon 555m + concealed 456m makes 4 copies of 5m -> 1 gen (+1 fan).
        //
        // Concealed (11 tiles): 44456m 123p 123s
        // Fuuro: pon 555m
        //
        // Total fan: PingHu(1) + Gen(1) = 2 (Ron points = 2000).
        let tehai = hand("44456m 123p 123s").unwrap();
        let five_m: Tile = "5m".parse().unwrap();
        let pons = [five_m.as_u8()];

        let agari_calc = AgariCalculator {
            tehai: &tehai,
            pons: &pons,
            minkans: &[],
            ankans: &[],
            winning_tile: 6, // arbitrary (not used by has_yaku/agari fan calc except for JGD tanki)
            is_ron: true,
            ding_que: None,
            is_after_kan: false,
            is_kan_discard: false,
            is_chankan: false,
            exclude_gen_tile: None,
            is_haidi: false,
            is_tianhu: false,
            is_dihu: false,
            fan_config: FanConfig::default(),
        };

        let agari = agari_calc.agari().expect("should agari");
        assert_eq!(agari.point(false).ron, 2000);
    }

#[test]
fn gen_excluded_tile_not_counted() {
        // Same as above, but exclude 5m from gen count (e.g. robbed kong semantics).
        // Fan should drop by 1: PingHu(1) only -> 1000.
        let tehai = hand("44456m 123p 123s").unwrap();
        let five_m: Tile = "5m".parse().unwrap();
        let pons = [five_m.as_u8()];

        let agari_calc = AgariCalculator {
            tehai: &tehai,
            pons: &pons,
            minkans: &[],
            ankans: &[],
            winning_tile: 6,
            is_ron: true,
            ding_que: None,
            is_after_kan: false,
            is_kan_discard: false,
            is_chankan: false,
            exclude_gen_tile: Some(five_m.as_u8()),
            is_haidi: false,
            is_tianhu: false,
            is_dihu: false,
            fan_config: FanConfig::default(),
        };

        let agari = agari_calc.agari().expect("should agari");
        assert_eq!(agari.point(false).ron, 1000);
    }

#[test]
fn ron_8p_pure_straight_shape_is_2_fan_without_bonuses() {
        // Hand shape (winning on 8p):
        // 123m 234p 789p 888p 55s
        //
        // Per Bloody Battle scoring:
        // - PingHu base: 1
        // - MenQing: +1 (no fuuro)
        // - Gen (SiGuiYi): +1 (8p appears 4 times: one in 789p + 888p)
        //
        // Ron: PingHu(1) + MenQing(1) + Gen(1) = 3 fan -> 4000 points.
        // (no 一条龍 since shuntsu span different suits)
        let tehai = hand("123m 234p 789p 888p 55s").unwrap();
        let calc = AgariCalculator {
            tehai: &tehai,
            pons: &[],
            minkans: &[],
            ankans: &[],
            winning_tile: 16,
            is_ron: true,
            ding_que: None,
            is_after_kan: false,
            is_kan_discard: false,
            is_chankan: false,
            exclude_gen_tile: None,
            is_haidi: false,
            is_tianhu: false,
            is_dihu: false,
            fan_config: FanConfig::default(),
        };
        let agari = calc.agari().expect("should agari");
        assert_eq!(agari, Agari::Fan(3));
        assert_eq!(agari.point(false).ron, 4000);
    }

#[test]
fn ron_8p_becomes_3_fan_with_one_bonus_flag() {
        // Same hand as ron_8p_pure_straight_shape_is_2_fan_without_bonuses:
        // 123m 234p 789p 888p 55s (8p=4 → 四归一)
        // Base: PingHu(1) + MenQing(1) + 四归一(1) = 3 fan
        // Each bonus flag should add +1 → 4 fan
        let tehai = hand("123m 234p 789p 888p 55s").unwrap();

        // Haidi (海底炮) adds +1 fan.
        let calc_haidi = AgariCalculator {
            tehai: &tehai,
            pons: &[],
            minkans: &[],
            ankans: &[],
            winning_tile: 16,
            is_ron: true,
            ding_que: None,
            is_after_kan: false,
            is_kan_discard: false,
            is_chankan: false,
            exclude_gen_tile: None,
            is_haidi: true,
            is_tianhu: false,
            is_dihu: false,
            fan_config: FanConfig::default(),
        };
        // PingHu(1) + MenQing(1) + 四归一(1) + Haidi(1) = 4 fan
        assert_eq!(calc_haidi.agari().unwrap(), Agari::Fan(4));

        // GangShangPao (杠上炮) adds +1 fan when Ron happens right after a kan discard.
        let calc_kan_discard = AgariCalculator {
            tehai: &tehai,
            pons: &[],
            minkans: &[],
            ankans: &[],
            winning_tile: 16,
            is_ron: true,
            ding_que: None,
            is_after_kan: false,
            is_kan_discard: true,
            is_chankan: false,
            exclude_gen_tile: None,
            is_haidi: false,
            is_tianhu: false,
            is_dihu: false,
            fan_config: FanConfig::default(),
        };
        // PingHu(1) + MenQing(1) + 四归一(1) + GangShangPao(1) = 4 fan
        assert_eq!(calc_kan_discard.agari().unwrap(), Agari::Fan(4));

        // Chankan (抢杠) adds +1 fan.
        let calc_chankan = AgariCalculator {
            tehai: &tehai,
            pons: &[],
            minkans: &[],
            ankans: &[],
            winning_tile: 16,
            is_ron: true,
            ding_que: None,
            is_after_kan: false,
            is_kan_discard: false,
            is_chankan: true,
            exclude_gen_tile: None,
            is_haidi: false,
            is_tianhu: false,
            is_dihu: false,
            fan_config: FanConfig::default(),
        };
        // PingHu(1) + MenQing(1) + 四归一(1) + Chankan(1) = 4 fan
        assert_eq!(calc_chankan.agari().unwrap(), Agari::Fan(4));
    }

#[test]
fn test_fuuro_division_constraint_false_positive() {
        // 构造场景：碰 1万(tile_id=0)，手牌 3万 5万5万5万 2条2条2条 3条3条3条 + 赢牌 2万
        // 手牌(tehai)不含碰的牌，只含暗牌部分 + 赢牌
        let mut tehai = [0u8; 27];
        tehai[2] = 1;   // 3万 x1
        tehai[4] = 3;   // 5万 x3
        tehai[19] = 3;  // 2条 x3 (index: 18+1=19)
        tehai[20] = 3;  // 3条 x3 (index: 18+2=20)
        tehai[1] = 1;   // 2万 x1 (赢牌已加入)
        // 总计: 1+3+3+3+1 = 11 张暗牌(含赢牌)

        let calc = AgariCalculator {
            tehai: &tehai,
            pons: &[0],    // 碰 1万 (tile_id=0)
            minkans: &[],
            ankans: &[],
            winning_tile: 1, // 2万
            is_ron: true,
            ding_que: None,
            is_after_kan: false,
            is_kan_discard: false,
            is_chankan: false,
            exclude_gen_tile: None,
            is_haidi: false,
            is_tianhu: false,
            is_dihu: false,
            fan_config: FanConfig::default(),
        };

        // 关键断言：这手牌不能胡 2万！
        // 碰的 1万 必须保持为刻子。剩余 2万+3万 无法组成面子。
        assert!(!calc.has_yaku(),
            "BUG: has_yaku() 返回 true，但碰 1万 后 2万+3万 无法组成面子，不应能胡");
        assert!(calc.agari().is_none(),
            "BUG: agari() 返回 Some，但碰 1万 后 2万+3万 无法组成面子，不应能胡");
    }

#[test]
fn test_fuuro_division_constraint_menqing_can_agari() {
        // 门清手：1万1万1万 2万 3万 5万5万5万 2条2条2条 3条3条3条（14 张）
        let mut tehai = [0u8; 27];
        tehai[0] = 3;   // 1万 x3
        tehai[1] = 1;   // 2万 x1
        tehai[2] = 1;   // 3万 x1
        tehai[4] = 3;   // 5万 x3
        tehai[19] = 3;  // 2条 x3
        tehai[20] = 3;  // 3条 x3

        let calc = AgariCalculator {
            tehai: &tehai,
            pons: &[],      // 无副露
            minkans: &[],
            ankans: &[],
            winning_tile: 1, // 2万
            is_ron: true,
            ding_que: None,
            is_after_kan: false,
            is_kan_discard: false,
            is_chankan: false,
            exclude_gen_tile: None,
            is_haidi: false,
            is_tianhu: false,
            is_dihu: false,
            fan_config: FanConfig::default(),
        };

        // 门清手可以自由分解为：1万1万(对)+1万2万3万(顺)+5万5万5万+2条2条2条+3条3条3条
        assert!(calc.has_yaku(),
            "门清手应该能胡：1万1万(对)+1万2万3万(顺)+5万5万5万+2条2条2条+3条3条3条");
        assert!(calc.agari().is_some(),
            "门清手 agari() 应返回 Some");
    }

#[test]
fn test_fuuro_division_constraint_valid_ron_with_pon() {
        // 碰 1万，手牌：2万2万 5万5万5万 2条2条2条 3条3条3条 + 赢牌 2万
        // 合法分解：碰1万(刻)+2万2万2万(刻)+5万5万5万(刻)+2条2条2条(刻)+3条3条(对)
        // 或：碰1万(刻)+2万2万(对)+5万5万5万(刻)+2条2条2条(刻)+3条3条3条(刻)
        let mut tehai = [0u8; 27];
        tehai[1] = 3;   // 2万 x3 (2 in hand + 1 winning tile)
        tehai[4] = 3;   // 5万 x3
        tehai[19] = 3;  // 2条 x3
        tehai[20] = 2;  // 3条 x2 (对子)
        // 总计: 3+3+3+2 = 11 张暗牌(含赢牌)

        let calc = AgariCalculator {
            tehai: &tehai,
            pons: &[0],    // 碰 1万
            minkans: &[],
            ankans: &[],
            winning_tile: 1, // 2万
            is_ron: true,
            ding_que: None,
            is_after_kan: false,
            is_kan_discard: false,
            is_chankan: false,
            exclude_gen_tile: None,
            is_haidi: false,
            is_tianhu: false,
            is_dihu: false,
            fan_config: FanConfig::default(),
        };

        // 合法：碰1万(刻) + 2万2万2万(刻) + 5万5万5万(刻) + 2条2条2条(刻) + 3条3条(对)
        // 碰保持为刻子，不需要拆分
        assert!(calc.has_yaku(),
            "碰1万+2万刻+5万刻+2条刻+3条对 应该能胡");
        assert!(calc.agari().is_some(),
            "agari() 应返回 Some");
    }

#[test]
fn test_fan_config_random_from_seed() {
        // Determinism: same seed → same config
        let a = FanConfig::random_from_seed(42);
        let b = FanConfig::random_from_seed(42);
        assert_eq!(a, b);

        // Different seeds → likely different configs
        let configs: Vec<_> = (0..32).map(|i| FanConfig::random_from_seed(i)).collect();
        let unique_count = configs.iter().collect::<std::collections::HashSet<_>>().len();
        // With 7 flags and 32 seeds, should get a good mix (not all identical)
        assert!(unique_count >= 8, "Expected diverse configs, got only {unique_count} unique out of 32");

        // Verify flags are booleans (sanity)
        let c = FanConfig::random_from_seed(12345);
        let flags = c.as_flags();
        assert_eq!(flags.len(), FanConfig::NUM_FLAGS);
    }

