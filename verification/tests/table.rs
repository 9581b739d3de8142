use santa_translator::{decrypt, encrypt, SubstitutionTable};

const PAIRS: [(char, char); 58] = [
    ('a', 'd'), ('b', 'e'), ('c', 'f'), ('d', 'g'), ('e', 'h'), ('f', 'i'), ('g', 'j'),
    ('h', 'k'), ('i', 'l'), ('j', 'm'), ('k', 'n'), ('l', 'o'), ('m', 'p'), ('n', 'q'),
    ('o', 'r'), ('p', 's'), ('q', 't'), ('r', 'u'), ('s', 'v'), ('t', 'w'), ('u', 'x'),
    ('v', 'y'), ('w', 'z'), ('x', 'æ'), ('y', 'ø'), ('z', 'å'), ('æ', 'a'), ('ø', 'b'),
    ('å', 'c'), ('A', 'D'), ('B', 'E'), ('C', 'F'), ('D', 'G'), ('E', 'H'), ('F', 'I'),
    ('G', 'J'), ('H', 'K'), ('I', 'L'), ('J', 'M'), ('K', 'N'), ('L', 'O'), ('M', 'P'),
    ('N', 'Q'), ('O', 'R'), ('P', 'S'), ('Q', 'T'), ('R', 'U'), ('S', 'V'), ('T', 'W'),
    ('U', 'X'), ('V', 'Y'), ('W', 'Z'), ('X', 'Æ'), ('Y', 'Ø'), ('Z', 'Å'), ('Æ', 'A'),
    ('Ø', 'B'), ('Å', 'C'),
];

const LOWER: [char; 29] = [
    'a', 'b', 'c', 'd', 'e', 'f', 'g', 'h', 'i', 'j', 'k', 'l', 'm', 'n', 'o', 'p', 'q', 'r',
    's', 't', 'u', 'v', 'w', 'x', 'y', 'z', 'æ', 'ø', 'å',
];

const UPPER: [char; 29] = [
    'A', 'B', 'C', 'D', 'E', 'F', 'G', 'H', 'I', 'J', 'K', 'L', 'M', 'N', 'O', 'P', 'Q', 'R',
    'S', 'T', 'U', 'V', 'W', 'X', 'Y', 'Z', 'Æ', 'Ø', 'Å',
];

fn is_table_letter(c: char) -> bool {
    LOWER.contains(&c) || UPPER.contains(&c)
}

#[test]
fn table_encrypts_every_listed_pair() {
    let table = SubstitutionTable::new();
    for (plain, cipher) in PAIRS {
        assert_eq!(table.encrypt(plain), cipher, "encrypting {plain:?}");
    }
}

#[test]
fn table_decrypts_every_listed_pair() {
    let table = SubstitutionTable::new();
    for (plain, cipher) in PAIRS {
        assert_eq!(table.decrypt(cipher), plain, "decrypting {cipher:?}");
    }
}

#[test]
fn free_functions_agree_with_the_listed_pairs() {
    for (plain, cipher) in PAIRS {
        assert_eq!(encrypt(&plain), cipher);
        assert_eq!(decrypt(&cipher), plain);
    }
}

#[test]
fn encryption_shifts_three_positions_cyclically() {
    let table = SubstitutionTable::new();
    for alphabet in [LOWER, UPPER] {
        for position in 0..29 {
            assert_eq!(table.encrypt(alphabet[position]), alphabet[(position + 3) % 29]);
        }
    }
}

#[test]
fn decryption_shifts_three_positions_back_cyclically() {
    let table = SubstitutionTable::new();
    for alphabet in [LOWER, UPPER] {
        for position in 0..29 {
            assert_eq!(table.decrypt(alphabet[position]), alphabet[(position + 26) % 29]);
        }
    }
}

#[test]
fn wraparound_at_the_end_of_the_lowercase_alphabet() {
    assert_eq!(encrypt(&'w'), 'z');
    assert_eq!(encrypt(&'x'), 'æ');
    assert_eq!(encrypt(&'y'), 'ø');
    assert_eq!(encrypt(&'z'), 'å');
    assert_eq!(encrypt(&'æ'), 'a');
    assert_eq!(encrypt(&'ø'), 'b');
    assert_eq!(encrypt(&'å'), 'c');
}

#[test]
fn wraparound_at_the_end_of_the_uppercase_alphabet() {
    assert_eq!(encrypt(&'W'), 'Z');
    assert_eq!(encrypt(&'X'), 'Æ');
    assert_eq!(encrypt(&'Y'), 'Ø');
    assert_eq!(encrypt(&'Z'), 'Å');
    assert_eq!(encrypt(&'Æ'), 'A');
    assert_eq!(encrypt(&'Ø'), 'B');
    assert_eq!(encrypt(&'Å'), 'C');
}

#[test]
fn wraparound_at_the_start_of_the_alphabets() {
    assert_eq!(decrypt(&'a'), 'æ');
    assert_eq!(decrypt(&'b'), 'ø');
    assert_eq!(decrypt(&'c'), 'å');
    assert_eq!(decrypt(&'å'), 'z');
    assert_eq!(decrypt(&'A'), 'Æ');
    assert_eq!(decrypt(&'B'), 'Ø');
    assert_eq!(decrypt(&'C'), 'Å');
    assert_eq!(decrypt(&'Å'), 'Z');
}

#[test]
fn decrypt_undoes_encrypt_for_every_letter() {
    let table = SubstitutionTable::new();
    for alphabet in [LOWER, UPPER] {
        for letter in alphabet {
            assert_eq!(table.decrypt(table.encrypt(letter)), letter);
            assert_eq!(table.encrypt(table.decrypt(letter)), letter);
        }
    }
}

#[test]
fn round_trip_holds_for_every_character_of_the_first_planes() {
    let table = SubstitutionTable::new();
    for code in 0u32..0x3_0000 {
        if let Some(c) = char::from_u32(code) {
            assert_eq!(table.decrypt(table.encrypt(c)), c);
            assert_eq!(table.encrypt(table.decrypt(c)), c);
        }
    }
}

#[test]
fn characters_outside_the_table_pass_through() {
    let table = SubstitutionTable::new();
    for code in 0u32..0x3_0000 {
        if let Some(c) = char::from_u32(code) {
            if !is_table_letter(c) {
                assert_eq!(table.encrypt(c), c);
                assert_eq!(table.decrypt(c), c);
            }
        }
    }
}

#[test]
fn digits_punctuation_and_whitespace_pass_through() {
    for c in ['0', '7', '9', '.', ',', '!', '?', '-', '_', '/', '*', ' ', '\t', '\n', '\r'] {
        assert_eq!(encrypt(&c), c);
        assert_eq!(decrypt(&c), c);
    }
}

#[test]
fn letters_of_other_alphabets_pass_through() {
    for c in ['ä', 'ö', 'Ä', 'Ö', 'é', 'ß', 'ñ', 'Я', 'λ', '日', '🎅', char::MAX] {
        assert_eq!(encrypt(&c), c);
        assert_eq!(decrypt(&c), c);
    }
}

#[test]
fn exactly_the_58_letters_are_changed() {
    let table = SubstitutionTable::new();
    let mut changed = 0;
    for code in 0u32..=0x10_FFFF {
        if let Some(c) = char::from_u32(code) {
            if table.encrypt(c) != c {
                changed += 1;
                assert!(is_table_letter(c));
            }
        }
    }
    assert_eq!(changed, 58);
}

#[test]
fn case_is_preserved_in_both_directions() {
    let table = SubstitutionTable::new();
    for letter in LOWER {
        assert!(LOWER.contains(&table.encrypt(letter)));
        assert!(LOWER.contains(&table.decrypt(letter)));
        assert!(table.encrypt(letter).is_lowercase());
        assert!(table.decrypt(letter).is_lowercase());
    }
    for letter in UPPER {
        assert!(UPPER.contains(&table.encrypt(letter)));
        assert!(UPPER.contains(&table.decrypt(letter)));
        assert!(table.encrypt(letter).is_uppercase());
        assert!(table.decrypt(letter).is_uppercase());
    }
}

#[test]
fn no_two_letters_share_a_cipher_letter() {
    let table = SubstitutionTable::new();
    let mut seen: Vec<char> = Vec::new();
    for alphabet in [LOWER, UPPER] {
        for letter in alphabet {
            let cipher = table.encrypt(letter);
            assert!(!seen.contains(&cipher));
            seen.push(cipher);
        }
    }
    assert_eq!(seen.len(), 58);
}

#[test]
fn apply_follows_the_direction_flag() {
    let table = SubstitutionTable::new();
    assert_eq!(table.apply('a', false), 'd');
    assert_eq!(table.apply('d', true), 'a');
    assert_eq!(table.apply('a', true), 'æ');
    assert_eq!(table.apply('å', false), 'c');
    assert_eq!(table.apply('5', false), '5');
    assert_eq!(table.apply('5', true), '5');
}

#[test]
fn default_table_is_the_cipher_table() {
    let table = SubstitutionTable::default();
    for (plain, cipher) in PAIRS {
        assert_eq!(table.encrypt(plain), cipher);
        assert_eq!(table.decrypt(cipher), plain);
    }
    assert_eq!(table.encrypt('1'), '1');
}

#[test]
fn two_tables_agree() {
    let first = SubstitutionTable::new();
    let second = SubstitutionTable::new();
    for (plain, cipher) in PAIRS {
        assert_eq!(first.encrypt(plain), second.encrypt(plain));
        assert_eq!(first.decrypt(cipher), second.decrypt(cipher));
    }
}
