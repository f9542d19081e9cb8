use intcode::amplifiers::{
    best_signal, feedback_signal, max_feedback_signal, max_thruster_signal, new_amps, run_amps,
    thruster_signal, AmpError,
};
use intcode::assist::{find_inputs, run_with};
use intcode::diagnostics::{diagnostic_code, run_on};
use intcode::fuel::{compute_fuel_weight, compute_total_weight, total_fuel, total_fuel_with_fuel};
use intcode::image::{checksum, count_digits, find_layer_fewest_zeroes, merge_layers, render};
use intcode::password::{count_passwords, has_increasing_digits, has_same_adjacent_digits};
use intcode::signal::{apply_fft, embedded_message, phase, run_phases, vec_to_u32};
use intcode::{Fault, Intcode};

#[test]
fn fuel_for_a_mass() {
    assert_eq!(compute_fuel_weight(12), 2);
    assert_eq!(compute_fuel_weight(14), 2);
    assert_eq!(compute_fuel_weight(1969), 654);
    assert_eq!(compute_fuel_weight(100756), 33583);
    assert_eq!(compute_fuel_weight(0), -2);
    assert_eq!(compute_fuel_weight(-7), -4);
    assert_eq!(compute_fuel_weight(i32::MIN), i32::MIN / 3 - 2);
}

#[test]
fn fuel_for_mass_and_fuel() {
    assert_eq!(compute_total_weight(14), 2);
    assert_eq!(compute_total_weight(1969), 966);
    assert_eq!(compute_total_weight(100756), 50346);
    assert_eq!(compute_total_weight(8), 0);
    assert_eq!(compute_total_weight(-100), 0);
    assert_eq!(compute_total_weight(i32::MAX), 1073741757);
}

#[test]
fn fuel_for_all_modules() {
    assert_eq!(total_fuel(&vec![12, 14, 1969, 100756]), Some(2 + 2 + 654 + 33583));
    assert_eq!(total_fuel_with_fuel(&vec![14, 1969, 100756]), Some(2 + 966 + 50346));
    assert_eq!(total_fuel(&vec![]), Some(0));
    assert_eq!(total_fuel(&vec![i32::MAX; 4]), None);
    assert_eq!(total_fuel(&vec![i32::MAX; 3]), Some(3 * (i32::MAX / 3 - 2)));
    assert_eq!(total_fuel_with_fuel(&vec![i32::MAX; 3]), None);
    assert_eq!(total_fuel_with_fuel(&vec![i32::MAX, 0]), Some(1073741757));
}

#[test]
fn password_digits() {
    assert!(has_increasing_digits(111111));
    assert!(has_same_adjacent_digits(111111, true));
    assert!(!has_same_adjacent_digits(111111, false));
    assert!(!has_increasing_digits(223450));
    assert!(has_same_adjacent_digits(223450, true));
    assert!(has_increasing_digits(123789));
    assert!(!has_same_adjacent_digits(123789, true));
    assert!(has_same_adjacent_digits(112233, false));
    assert!(!has_same_adjacent_digits(123444, false));
    assert!(has_same_adjacent_digits(123444, true));
    assert!(has_same_adjacent_digits(111122, false));
    assert!(has_same_adjacent_digits(112222, false));
    assert!(!has_same_adjacent_digits(0, true));
    assert!(!has_same_adjacent_digits(7, false));
    assert!(has_increasing_digits(0));
    assert!(has_increasing_digits(9));
    assert!(!has_increasing_digits(10));
}

#[test]
fn password_counts() {
    assert_eq!(count_passwords(10, 30, true), 2);
    assert_eq!(count_passwords(10, 30, false), 2);
    assert_eq!(count_passwords(110, 120, true), 9);
    assert_eq!(count_passwords(110, 120, false), 8);
    assert_eq!(count_passwords(30, 10, true), 0);
    assert_eq!(count_passwords(11, 11, true), 1);
    assert_eq!(count_passwords(12, 12, true), 0);
}

#[test]
fn amplifiers_single_pass() {
    let program = vec![3, 15, 3, 16, 1002, 16, 10, 16, 1, 16, 15, 15, 4, 15, 99, 0, 0];
    assert_eq!(thruster_signal(&program, &[4, 3, 2, 1, 0]), Ok(43210));
    assert_eq!(max_thruster_signal(&program), Ok(Some(43210)));
    let program = vec![
        3, 23, 3, 24, 1002, 24, 10, 24, 1002, 23, -1, 23, 101, 5, 23, 23, 1, 24, 23, 23, 4, 23, 99,
        0, 0,
    ];
    assert_eq!(thruster_signal(&program, &[0, 1, 2, 3, 4]), Ok(54321));
    assert_eq!(max_thruster_signal(&program), Ok(Some(54321)));
    let program = vec![
        3, 31, 3, 32, 1002, 32, 10, 32, 1001, 31, -2, 31, 1007, 31, 0, 33, 1002, 33, 7, 33, 1, 33,
        31, 31, 1, 32, 31, 31, 4, 31, 99, 0, 0, 0,
    ];
    assert_eq!(thruster_signal(&program, &[1, 0, 4, 3, 2]), Ok(65210));
    assert_eq!(max_thruster_signal(&program), Ok(Some(65210)));
}

#[test]
fn amplifiers_feedback() {
    let program = vec![
        3, 26, 1001, 26, -4, 26, 3, 27, 1002, 27, 2, 27, 1, 27, 26, 27, 4, 27, 1001, 28, -1, 28,
        1005, 28, 6, 99, 0, 0, 5,
    ];
    assert_eq!(feedback_signal(&program, &[9, 8, 7, 6, 5], 1000), Ok(139629729));
    assert_eq!(max_feedback_signal(&program, 1000), Ok(Some(139629729)));
    assert_eq!(feedback_signal(&program, &[9, 8, 7, 6, 5], 2), Err(AmpError::RoundLimit));
    let program = vec![
        3, 52, 1001, 52, -5, 52, 3, 53, 1, 52, 56, 54, 1007, 54, 5, 55, 1005, 55, 26, 1001, 54, -5,
        54, 1105, 1, 12, 1, 53, 54, 53, 1008, 54, 0, 55, 1001, 55, 1, 55, 2, 53, 55, 53, 4, 53,
        1001, 56, -1, 56, 1005, 56, 6, 99, 0, 0, 0, 0, 10,
    ];
    assert_eq!(feedback_signal(&program, &[9, 7, 8, 5, 6], 1000), Ok(18216));
    assert_eq!(max_feedback_signal(&program, 1000), Ok(Some(18216)));
}

#[test]
fn amplifiers_report_errors() {
    assert_eq!(thruster_signal(&vec![3, 0, 99], &[0, 1, 2, 3, 4]), Err(AmpError::HaltedEarly));
    assert_eq!(
        thruster_signal(&vec![3, 0, 55], &[0, 1, 2, 3, 4]),
        Err(AmpError::Fault(Fault::UnknownOpcode(55)))
    );
    assert_eq!(thruster_signal(&vec![3, 9, 3, 9, 99, 0, 0, 0, 0, 0], &[0, 1, 2, 3, 4]), Err(AmpError::BadOutput));
    assert!(matches!(new_amps(&vec![3, 0, 99], &[1, 2, 3, 4, 5]), Err(AmpError::HaltedEarly)));
    let settings = vec![vec![4, 3, 2, 1, 0], vec![0, 1, 2, 3, 4]];
    let program = vec![3, 15, 3, 16, 1002, 16, 10, 16, 1, 16, 15, 15, 4, 15, 99, 0, 0];
    assert_eq!(best_signal(&program, &settings, None), Ok(Some(43210)));
    assert_eq!(best_signal(&program, &vec![vec![0, 1, 2, 3, 4]], None), Ok(Some(1234)));
    assert_eq!(best_signal(&program, &vec![], None), Ok(None));
}

#[test]
fn amplifiers_pass_the_signal_on() {
    let program = vec![3, 15, 3, 16, 1002, 16, 10, 16, 1, 16, 15, 15, 4, 15, 99, 0, 0];
    let mut amps = match new_amps(&program, &[4, 3, 2, 1, 0]) {
        Ok(amps) => amps,
        Err(e) => panic!("{:?}", e),
    };
    assert_eq!(amps.len(), 5);
    assert!(amps.iter().all(|a| !a.is_done()));
    assert_eq!(run_amps(&mut amps, &[0]), Ok(vec![43210]));
    assert!(amps.iter().all(|a| a.is_done()));
    let mut faulty = vec![Intcode::new(&vec![3, 0, 4, 0, 99]), Intcode::new(&vec![3, 0, 77])];
    faulty.push(Intcode::new(&vec![99]));
    faulty.push(Intcode::new(&vec![99]));
    faulty.push(Intcode::new(&vec![99]));
    assert_eq!(run_amps(&mut faulty, &[6]), Err(Fault::UnknownOpcode(77)));
    assert!(faulty[0].is_done());
    assert_eq!(faulty[1].memory[0], 6);
    assert!(!faulty[2].is_done());
}

#[test]
fn patched_runs() {
    let program = vec![1, 9, 10, 3, 2, 3, 11, 0, 99, 30, 40, 50];
    assert_eq!(run_with(&program, 9, 10), Ok(3500));
    assert_eq!(run_with(&program, 9, 9), Ok(60 * 50));
    assert_eq!(run_with(&program, 10, 11), Ok(90 * 50));
    assert_eq!(find_inputs(&program, 3500), Ok(Some((2, 70))));
    assert_eq!(find_inputs(&program, 4500), Ok(Some((2, 90))));
    assert_eq!(run_with(&vec![1, 0, 0, 0, 99], 12, 2), Ok(2));
    assert_eq!(run_with(&vec![1, 0, 0], 12, 2), Err(Fault::UnknownOpcode(0)));
    assert_eq!(run_with(&vec![1, 0, 0], 1, 2), Err(Fault::UnknownOpcode(0)));
    let sum = vec![1, 0, 0, 0, 99, 0, 0, 0, 0, 0, 0, 0, 0];
    assert_eq!(run_with(&sum, 4, 3), Ok(99));
    assert_eq!(find_inputs(&sum, 99), Ok(Some((2, 99))));
    assert_eq!(find_inputs(&sum, 5), Ok(Some((2, 5))));
    assert_eq!(find_inputs(&sum, 12345), Ok(None));
    assert_eq!(find_inputs(&vec![1, 0, 0, 0, 77], 12345), Err(Fault::UnknownOpcode(77)));
}

#[test]
fn diagnostic_reports() {
    assert_eq!(diagnostic_code(&vec![0, 0, 0, 42]), Some(42));
    assert_eq!(diagnostic_code(&vec![42]), Some(42));
    assert_eq!(diagnostic_code(&vec![0, 3, 0, 42]), None);
    assert_eq!(diagnostic_code(&vec![]), None);
    assert_eq!(diagnostic_code(&vec![0, 0]), Some(0));
    assert_eq!(run_on(&vec![3, 0, 4, 0, 99], 17), Ok(vec![17]));
    assert_eq!(run_on(&vec![3, 0, 104, 0, 4, 0, 99], 5), Ok(vec![0, 5]));
    assert_eq!(run_on(&vec![3, 0, 4, 0, 98], 17), Err(Fault::UnknownOpcode(98)));
}

#[test]
fn image_layers() {
    let a: Vec<char> = "123456".chars().collect();
    let b: Vec<char> = "789012".chars().collect();
    let c: Vec<char> = "001122".chars().collect();
    assert_eq!(count_digits(&a, '1'), 1);
    assert_eq!(count_digits(&c, '0'), 2);
    assert_eq!(count_digits(&c, '7'), 0);
    assert_eq!(count_digits(&[], '0'), 0);
    let layers = vec![&b[..], &a[..], &c[..]];
    assert_eq!(find_layer_fewest_zeroes(&layers), &a[..]);
    assert_eq!(checksum(&layers), 1);
    let layers = vec![&c[..], &b[..]];
    assert_eq!(find_layer_fewest_zeroes(&layers), &b[..]);
    assert_eq!(checksum(&layers), 1);
    let d: Vec<char> = "112122".chars().collect();
    assert_eq!(checksum(&vec![&c[..], &d[..]]), 9);
    let zeroes = vec!['0'; 150];
    let layers = vec![&zeroes[..]];
    assert_eq!(find_layer_fewest_zeroes(&layers), &zeroes[..]);
    let ties = vec![&b[..], &b[..], &a[..]];
    assert_eq!(find_layer_fewest_zeroes(&ties), &a[..]);
}

#[test]
fn image_merge() {
    let l1: Vec<char> = "0222".chars().collect();
    let l2: Vec<char> = "1122".chars().collect();
    let l3: Vec<char> = "2212".chars().collect();
    let l4: Vec<char> = "0000".chars().collect();
    let image = merge_layers(&vec![&l1[..], &l2[..], &l3[..], &l4[..]]);
    assert_eq!(image.len(), 150);
    assert_eq!(&image[..4], &['0', '1', '1', '0']);
    assert!(image[4..].iter().all(|c| *c == '2'));
    assert_eq!(merge_layers(&vec![]), vec!['2'; 150]);
}

#[test]
fn signal_phases() {
    let input = vec![1, 2, 3, 4, 5, 6, 7, 8];
    assert_eq!(apply_fft(&input, 0), 4);
    assert_eq!(apply_fft(&input, 1), 8);
    assert_eq!(apply_fft(&input, 7), 8);
    assert_eq!(apply_fft(&vec![], 3), 0);
    assert_eq!(phase(&input), vec![4, 8, 2, 2, 6, 1, 5, 8]);
    assert_eq!(run_phases(input.clone(), 2), vec![3, 4, 0, 4, 0, 4, 3, 8]);
    assert_eq!(run_phases(input.clone(), 4), vec![0, 1, 0, 2, 9, 4, 9, 8]);
    assert_eq!(run_phases(input.clone(), 0), input);
    let long: Vec<u32> = "80871224585914546619083218645595"
        .chars()
        .map(|c| c.to_digit(10).unwrap())
        .collect();
    let out = run_phases(long, 100);
    assert_eq!(vec_to_u32(&out[0..8]), Some(24176176));
}

#[test]
fn digits_to_number() {
    assert_eq!(vec_to_u32(&[1, 2, 3]), Some(123));
    assert_eq!(vec_to_u32(&[]), Some(0));
    assert_eq!(vec_to_u32(&[0, 0, 7]), Some(7));
    assert_eq!(vec_to_u32(&[12, 3]), Some(123));
    assert_eq!(vec_to_u32(&[9; 30]), None);
    assert_eq!(vec_to_u32(&[u32::MAX, u32::MAX, u32::MAX]), Some(4294967295 * 111));
}

#[test]
fn message_deep_in_the_signal() {
    let digits = |s: &str| -> Vec<u32> { s.chars().map(|c| c.to_digit(10).unwrap()).collect() };
    assert_eq!(embedded_message(&digits("03036732577212944063491565474664"), 100), Some(84462026));
    assert_eq!(embedded_message(&digits("02935109699940807407585447034323"), 100), Some(78725270));
    assert_eq!(embedded_message(&digits("123456"), 100), None);
    assert_eq!(embedded_message(&digits("9999999123"), 100), None);
    assert_eq!(embedded_message(&digits("0099997123"), 0), Some(123));
    assert_eq!(embedded_message(&digits("0099997123"), 1), Some(653));
    assert_eq!(embedded_message(&digits("0100000123"), 0), Some(0));
}

#[test]
fn image_as_text() {
    let pixels: Vec<char> = "0110".chars().chain(std::iter::repeat('2').take(22)).chain("10".chars()).collect();
    assert_eq!(pixels.len(), 28);
    let text = render(&pixels);
    assert_eq!(text, format!("\n XX {}\nXX \n", "X".repeat(21)));
    assert_eq!(render(&vec![]), "\n");
    assert_eq!(render(&vec!['0']), "\n \n");
}
