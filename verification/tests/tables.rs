use nanoft8::protocol::ldpc::{EOL, MSG_BITS, TABLE_CV, TABLE_GEN, TABLE_VC};

#[test]
fn test_table_vc_cv() {
    for (i, &row) in TABLE_VC.iter().enumerate() {
        for &c in row.iter() {
            assert!(TABLE_CV[c as usize].contains(&(i as u8)));
        }
    }
}

#[test]
fn test_table_rev() {
    for (i, &row) in TABLE_GEN.iter().enumerate() {
        for &hrow in TABLE_CV.iter() {
            let mut bit = false;
            for &x in hrow.iter() {
                if x == EOL {
                    continue;
                }
                if x < MSG_BITS as u8 {
                    if x == i as u8 {
                        bit = !bit;
                    }
                } else {
                    let xx = x - MSG_BITS as u8;
                    let xi = (xx / 32) as usize;
                    let xj = 31 - xx % 32;
                    let b = row[xi] & (1 << xj) != 0;
                    if b {
                        bit = !bit;
                    }
                }
            }
            assert!(!bit);
        }
    }
}

#[test]
fn table_cv_rows_are_found_in_table_vc() {
    for (c, row) in TABLE_CV.iter().enumerate() {
        for &v in row.iter() {
            if v != EOL {
                assert!(TABLE_VC[v as usize].contains(&(c as u8)));
            }
        }
    }
}
