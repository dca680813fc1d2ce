use druid_table::vis::OffsetSource;
use druid_table::InterpCoverage::{Full, Noop, Partial};
use druid_table::{
    AxisMeasurementType, AxisName, BandScaleFactory, DatumId, InterpCoverage, LogIdx, ReadOnly, SeriesId,
    ShowHeadings, StringInterp, TableAxis,
};

#[test]
fn coverage_adds() {
    assert_eq!(Full + Full, Full);
    assert_eq!(Noop + Noop, Noop);
    assert_eq!(Full + Noop, Partial);
    assert_eq!(Noop + Partial, Partial);
    assert_eq!((Full + Noop) + Noop, Full + (Noop + Noop));
    assert_eq!(Partial + Full, Full + Partial);
}

#[test]
fn string_interp_steps_through_prefix() {
    let i = StringInterp::new("hello", "help me");
    assert_eq!(i.coverage(), InterpCoverage::Full);
    // "lo" is taken off, then "p me" is added: 6 steps
    assert_eq!(i.text_at_step(0), "hello");
    assert_eq!(i.text_at_step(1), "hell");
    assert_eq!(i.text_at_step(2), "hel");
    assert_eq!(i.text_at_step(3), "help");
    assert_eq!(i.text_at_step(6), "help me");
}

#[test]
fn string_interp_of_equal_strings_does_nothing() {
    let i = StringInterp::new("same", "same");
    assert_eq!(i.coverage(), InterpCoverage::Noop);
    assert_eq!(i.text_at_step(0), "same");
    let j = StringInterp::new("a", "b");
    let k = i.merge(j);
    assert_eq!(k.coverage(), InterpCoverage::Full);
    assert_eq!(k.text_at_step(0), "a");
    assert_eq!(k.text_at_step(2), "b");
}

#[test]
fn string_interp_counts_bytes() {
    let i = StringInterp::new("aé", "a");
    assert_eq!(i.text_at_step(0), "aé");
    assert_eq!(i.text_at_step(2), "a");
}

#[test]
fn offsets_are_dense_and_stable() {
    let mut src: OffsetSource<&'static str, usize> = OffsetSource::default();
    assert_eq!(src.offset(&"x"), 0);
    assert_eq!(src.offset(&"y"), 1);
    assert_eq!(src.offset(&"x"), 0);
    assert_eq!(src.offset(&"z"), 2);
    assert_eq!(src.offset(&"y"), 1);
}

#[test]
fn band_scale_factory_starts_empty() {
    let mut f: BandScaleFactory<u32> = BandScaleFactory::new(AxisName("x"));
    assert_eq!(f.name, AxisName("x"));
    assert_eq!(f.offset_source.offset(&40), 0);
    assert_eq!(f.offset_source.offset(&30), 1);
}

#[test]
fn datum_id_holds_its_parts() {
    let d = DatumId::new(SeriesId(2), LogIdx(5));
    assert_eq!(d.series, SeriesId(2));
    assert_eq!(d.idx, LogIdx(5));
}

#[test]
fn show_headings_by_axis() {
    assert!(ShowHeadings::Both.should_show(&TableAxis::Rows));
    assert!(!ShowHeadings::JustCells.should_show(&TableAxis::Columns));
    assert!(ShowHeadings::One(TableAxis::Columns).should_show(&TableAxis::Columns));
    assert!(!ShowHeadings::One(TableAxis::Columns).should_show(&TableAxis::Rows));
    assert_eq!(AxisMeasurementType::default(), AxisMeasurementType::Individual);
}

#[test]
fn read_only_computes_from_data() {
    let lens = ReadOnly::new(|l: &LogIdx| l.0.to_string());
    assert_eq!(lens.value(&LogIdx(12)), "12");
}

#[test]
fn string_interp_cuts_only_on_char_boundaries() {
    let i = StringInterp::new("aé", "a");
    assert!(i.can_cut_at(0));
    assert!(!i.can_cut_at(1));
    assert!(i.can_cut_at(2));
    assert!(!i.can_cut_at(3));
    assert!(!i.can_cut_at(-1));
}
