use calculator::mt19937::MT19937;

#[test]
fn test_mt19937() {
    let correct: Vec<u32> = vec![
        1067595299, 955945823, 477289528, 4107218783, 4228976476, 3344332714, 3355579695,
        227628506, 810200273, 2591290167, 2560260675, 3242736208, 646746669, 1479517882,
        4245472273, 1143372638, 3863670494, 3221021970, 1773610557, 1138697238, 1421897700,
        1269916527, 2859934041, 1764463362, 3874892047, 3965319921, 72549643, 2383988930,
        2600218693, 3237492380, 2792901476, 725331109, 605841842, 271258942, 715137098,
        3297999536, 1322965544, 4229579109, 1395091102, 3735697720, 2101727825, 3730287744,
        2950434330, 1661921839, 2895579582, 2370511479, 1004092106, 2247096681, 2111242379,
        3237345263, 4082424759, 219785033, 2454039889, 3709582971, 835606218, 2411949883,
        2735205030, 756421180, 2175209704, 1873865952, 2762534237, 4161807854, 3351099340,
        181129879, 3269891896, 776029799, 2218161979, 3001745796, 1866825872, 2133627728,
        34862734, 1191934573, 3102311354, 2916517763, 1012402762, 2184831317, 4257399449,
        2899497138, 3818095062, 3030756734, 1282161629, 420003642, 2326421477, 2741455717,
        1278020671, 3744179621, 271777016, 2626330018, 2560563991, 3055977700, 4233527566,
        1228397661, 3595579322, 1077915006, 2395931898, 1851927286, 3013683506, 1999971931,
        3006888962, 1049781534,
    ];
    let mut mt = MT19937::new_with_slice(&[0x123, 0x234, 0x345, 0x456]);
    let mut mine: Vec<u32> = Vec::with_capacity(100);
    for _ in 0..100 {
        mine.push(mt.gen_u32());
    }
    assert_eq!(mine, correct);
}

#[test]
fn single_seed_first_output() {
    // the first output of MT19937 seeded with 5489
    let mut mt = MT19937::new(5489);
    assert_eq!(mt.gen_u32(), 3499211612);
}

#[test]
fn gen_below_and_choice_stay_in_range() {
    let mut mt = MT19937::new(1);
    for _ in 0..50 {
        assert!(mt.gen_below(7) < 7);
    }
    let items = ['x', 'y', 'z'];
    for _ in 0..50 {
        let c = mt.choice(&items);
        assert!(items.contains(&c));
    }
}

#[test]
fn shuffle_keeps_items() {
    let mut mt = MT19937::new(42);
    let mut v: Vec<u32> = (0..20).collect();
    mt.shuffle(&mut v);
    let mut sorted = v.clone();
    sorted.sort();
    assert_eq!(sorted, (0..20).collect::<Vec<u32>>());
    assert_ne!(v, (0..20).collect::<Vec<u32>>());
}
