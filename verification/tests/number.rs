use lua_decompiler::lua40::number::Number;

fn double(value: f64) -> Number {
    Number { bits: value.to_bits(), single: false }
}

fn single(value: f32) -> Number {
    Number { bits: value.to_bits() as u64, single: true }
}

fn text(number: Number) -> String {
    let mut out = String::new();
    assert!(number.push_text(&mut out));
    out
}

#[test]
fn whole_numbers_have_no_point() {
    assert_eq!(text(double(0.0)), "0");
    assert_eq!(text(double(1.0)), "1");
    assert_eq!(text(double(100.0)), "100");
    assert_eq!(text(double(1e10)), "10000000000");
    assert_eq!(text(double(3.14159265358979323846E8)), "314159265.35897934436798095703125");
    assert_eq!(text(double(9007199254740992.0)), "9007199254740992");
    assert_eq!(text(double(1e22)), "10000000000000000000000");
}

#[test]
fn fractions_are_exact() {
    assert_eq!(text(double(0.5)), "0.5");
    assert_eq!(text(double(1.25)), "1.25");
    assert_eq!(text(double(0.0625)), "0.0625");
    assert_eq!(
        text(double(2.5e-3)),
        "0.0025000000000000000520417042793042128323577344417572021484375"
    );
    assert_eq!(
        text(double(0.1)),
        "0.1000000000000000055511151231257827021181583404541015625"
    );
    assert_eq!(text(single(0.1)), "0.100000001490116119384765625");
    assert_eq!(text(single(16777216.0)), "16777216");
}

#[test]
fn sign_is_written_in_front() {
    assert_eq!(text(double(-2.0)), "-2");
    assert_eq!(text(double(-0.0)), "-0");
    assert_eq!(text(single(-0.75)), "-0.75");
    assert_eq!(text(double(2.0).negated()), "-2");
    assert_eq!(double(-0.5).negated(), double(0.5));
    assert_eq!(single(1.5).negated(), single(-1.5));
}

#[test]
fn notation_reads_back_as_the_same_number() {
    for value in [3.14, 1e-7, 123456.789e3, 5e-324, 1.7976931348623157e308, 2.2250738585072014e-308]
    {
        let out = text(double(value));
        assert_eq!(out.parse::<f64>().unwrap().to_bits(), value.to_bits(), "{}", out);
    }
    for value in [3.14f32, 1e-7, 1e-45, 3.4028235e38] {
        let out = text(single(value));
        assert_eq!(out.parse::<f32>().unwrap().to_bits(), value.to_bits(), "{}", out);
    }
}

#[test]
fn smallest_and_largest_doubles_are_written_out() {
    let smallest = text(double(5e-324));
    assert!(smallest.starts_with("0.000"));
    assert!(smallest.ends_with("4940656458412465441765687928682213723650598026143247644255856825006755072702087518652998363616359923797965646954457177309266567103559397963987747960107818781263007131903114045278458171678489821036887186360569987307230500063874091535649843873124733972731696151400317153853980741262385655911710266585566867681870395603106249319452715914924553293054565444011274801297099995419319894090804165633245247571478690147267801593552386115501348035264934720193790268107107491703332226844753335720832431936092382893458368060106011506169809753078342277318329247904982524730776375927247874656084778203734469699533647017972677717585125660551199131504891101451037862738167250955837389733598993664809941164205702637090279242767544565229087538682506419718265533447265625"));
    assert_eq!(smallest.len(), 2 + 1074);
    let largest = text(double(f64::MAX));
    assert_eq!(largest.len(), 309);
    assert!(largest.starts_with("17976931348623157"));
}

#[test]
fn infinities_and_invalid_results_have_no_notation() {
    for number in [double(f64::INFINITY), double(f64::NEG_INFINITY), double(f64::NAN)] {
        let mut out = String::from("x");
        assert!(!number.is_finite());
        assert!(!number.push_text(&mut out));
        assert_eq!(out, "x");
    }
    assert!(!single(f32::INFINITY).is_finite());
    assert!(double(1.0).is_finite());
}
