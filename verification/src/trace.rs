use crate::encode::{be16, be32, lemma_add_assoc, lemma_within, push_i16, push_i32, push_u16, push_zeros, twos16, twos32, zeros};
use crate::time::UtcTime;
use vstd::prelude::*;

verus! {

/// Size in bytes of an encoded trace header.
pub const TRACE_HEADER_SIZE: usize = 240;

/// The 240-byte header that precedes the samples of each trace.
#[derive(Debug, Clone, Copy)]
pub struct TraceHeader {
    pub trace_sequence_line: i32,
    pub trace_sequence_file: i32,
    pub field_record_number: i32,
    pub trace_number_within_field: i32,
    pub energy_source_point: i32,
    pub ensemble_number: i32,
    pub trace_number_within_ensemble: i32,
    pub trace_id_code: u16,
    pub number_of_horizontally_summed: u16,
    pub number_of_vertically_summed: u16,
    pub data_use: u16,
    pub source_to_receiver_distance: i32,
    pub receiver_group_elevation: i32,
    pub surface_elevation_at_source: i32,
    pub source_depth_below_surface: i32,
    pub datum_elevation_at_receiver: i32,
    pub datum_elevation_at_source: i32,
    pub water_depth_at_source: i32,
    pub water_depth_at_group: i32,
    pub scalar_for_elevations: i16,
    pub scalar_for_coordinates: i16,
    pub source_x: i32,
    pub source_y: i32,
    pub group_x: i32,
    pub group_y: i32,
    pub coordinate_units: u16,
    pub weathering_velocity: u16,
    pub subweathering_velocity: u16,
    pub uphole_time_at_source: u16,
    pub uphole_time_at_group: u16,
    pub source_static_correction: u16,
    pub group_static_correction: u16,
    pub total_static_applied: u16,
    pub lag_time_a: u16,
    pub lag_time_b: u16,
    pub delay_recording_time: u16,
    pub mute_time_start: u16,
    pub mute_time_end: u16,
    pub number_of_samples: u16,
    pub sample_interval: u16,
    pub gain_type: u16,
    pub instrument_gain_constant: u16,
    pub instrument_initial_gain: u16,
    pub correlated: u16,
    pub sweep_freq_start: u16,
    pub sweep_freq_end: u16,
    pub sweep_length: u16,
    pub sweep_type: u16,
    pub sweep_taper_length_start: u16,
    pub sweep_taper_length_end: u16,
    pub taper_type: u16,
    pub alias_filter_freq: u16,
    pub alias_filter_slope: u16,
    pub notch_filter_freq: u16,
    pub notch_filter_slope: u16,
    pub low_cut_freq: u16,
    pub high_cut_freq: u16,
    pub low_cut_slope: u16,
    pub high_cut_slope: u16,
    pub year: u16,
    pub day_of_year: u16,
    pub hour: u16,
    pub minute: u16,
    pub second: u16,
    pub time_basis_code: u16,
    pub trace_weighting_factor: u16,
    pub group_number_of_roll_switch: u16,
    pub group_of_first_trace: u16,
    pub group_of_last_trace: u16,
    pub gap_size: u16,
    pub over_travel: u16,
}

impl TraceHeader {
    /// The header with every field zero.
    pub open spec fn zeroed() -> TraceHeader {
        TraceHeader {
            trace_sequence_line: 0,
            trace_sequence_file: 0,
            field_record_number: 0,
            trace_number_within_field: 0,
            energy_source_point: 0,
            ensemble_number: 0,
            trace_number_within_ensemble: 0,
            trace_id_code: 0,
            number_of_horizontally_summed: 0,
            number_of_vertically_summed: 0,
            data_use: 0,
            source_to_receiver_distance: 0,
            receiver_group_elevation: 0,
            surface_elevation_at_source: 0,
            source_depth_below_surface: 0,
            datum_elevation_at_receiver: 0,
            datum_elevation_at_source: 0,
            water_depth_at_source: 0,
            water_depth_at_group: 0,
            scalar_for_elevations: 0,
            scalar_for_coordinates: 0,
            source_x: 0,
            source_y: 0,
            group_x: 0,
            group_y: 0,
            coordinate_units: 0,
            weathering_velocity: 0,
            subweathering_velocity: 0,
            uphole_time_at_source: 0,
            uphole_time_at_group: 0,
            source_static_correction: 0,
            group_static_correction: 0,
            total_static_applied: 0,
            lag_time_a: 0,
            lag_time_b: 0,
            delay_recording_time: 0,
            mute_time_start: 0,
            mute_time_end: 0,
            number_of_samples: 0,
            sample_interval: 0,
            gain_type: 0,
            instrument_gain_constant: 0,
            instrument_initial_gain: 0,
            correlated: 0,
            sweep_freq_start: 0,
            sweep_freq_end: 0,
            sweep_length: 0,
            sweep_type: 0,
            sweep_taper_length_start: 0,
            sweep_taper_length_end: 0,
            taper_type: 0,
            alias_filter_freq: 0,
            alias_filter_slope: 0,
            notch_filter_freq: 0,
            notch_filter_slope: 0,
            low_cut_freq: 0,
            high_cut_freq: 0,
            low_cut_slope: 0,
            high_cut_slope: 0,
            year: 0,
            day_of_year: 0,
            hour: 0,
            minute: 0,
            second: 0,
            time_basis_code: 0,
            trace_weighting_factor: 0,
            group_number_of_roll_switch: 0,
            group_of_first_trace: 0,
            group_of_last_trace: 0,
            gap_size: 0,
            over_travel: 0,
        }
    }
}

impl Default for TraceHeader {
    fn default() -> (h: TraceHeader)
        ensures
            h == TraceHeader::zeroed(),
    {
        TraceHeader {
            trace_sequence_line: 0,
            trace_sequence_file: 0,
            field_record_number: 0,
            trace_number_within_field: 0,
            energy_source_point: 0,
            ensemble_number: 0,
            trace_number_within_ensemble: 0,
            trace_id_code: 0,
            number_of_horizontally_summed: 0,
            number_of_vertically_summed: 0,
            data_use: 0,
            source_to_receiver_distance: 0,
            receiver_group_elevation: 0,
            surface_elevation_at_source: 0,
            source_depth_below_surface: 0,
            datum_elevation_at_receiver: 0,
            datum_elevation_at_source: 0,
            water_depth_at_source: 0,
            water_depth_at_group: 0,
            scalar_for_elevations: 0,
            scalar_for_coordinates: 0,
            source_x: 0,
            source_y: 0,
            group_x: 0,
            group_y: 0,
            coordinate_units: 0,
            weathering_velocity: 0,
            subweathering_velocity: 0,
            uphole_time_at_source: 0,
            uphole_time_at_group: 0,
            source_static_correction: 0,
            group_static_correction: 0,
            total_static_applied: 0,
            lag_time_a: 0,
            lag_time_b: 0,
            delay_recording_time: 0,
            mute_time_start: 0,
            mute_time_end: 0,
            number_of_samples: 0,
            sample_interval: 0,
            gain_type: 0,
            instrument_gain_constant: 0,
            instrument_initial_gain: 0,
            correlated: 0,
            sweep_freq_start: 0,
            sweep_freq_end: 0,
            sweep_length: 0,
            sweep_type: 0,
            sweep_taper_length_start: 0,
            sweep_taper_length_end: 0,
            taper_type: 0,
            alias_filter_freq: 0,
            alias_filter_slope: 0,
            notch_filter_freq: 0,
            notch_filter_slope: 0,
            low_cut_freq: 0,
            high_cut_freq: 0,
            low_cut_slope: 0,
            high_cut_slope: 0,
            year: 0,
            day_of_year: 0,
            hour: 0,
            minute: 0,
            second: 0,
            time_basis_code: 0,
            trace_weighting_factor: 0,
            group_number_of_roll_switch: 0,
            group_of_first_trace: 0,
            group_of_last_trace: 0,
            gap_size: 0,
            over_travel: 0,
        }
    }
}

/// Encoding of the identity fields of a trace header.
#[verifier::opaque]
pub open spec fn identity_bytes(h: TraceHeader) -> Seq<u8> {
    be32(twos32(h.trace_sequence_line))
        + be32(twos32(h.trace_sequence_file))
        + be32(twos32(h.field_record_number))
        + be32(twos32(h.trace_number_within_field))
        + be32(twos32(h.energy_source_point))
        + be32(twos32(h.ensemble_number))
        + be32(twos32(h.trace_number_within_ensemble))
        + be16(h.trace_id_code as int)
        + be16(h.number_of_vertically_summed as int)
        + be16(h.number_of_horizontally_summed as int)
        + be16(h.data_use as int)
}

/// Encoding of the geometry fields of a trace header.
#[verifier::opaque]
pub open spec fn geometry_bytes(h: TraceHeader) -> Seq<u8> {
    be32(twos32(h.source_to_receiver_distance))
        + be32(twos32(h.receiver_group_elevation))
        + be32(twos32(h.surface_elevation_at_source))
        + be32(twos32(h.source_depth_below_surface))
        + be32(twos32(h.datum_elevation_at_receiver))
        + be32(twos32(h.datum_elevation_at_source))
        + be32(twos32(h.water_depth_at_source))
        + be32(twos32(h.water_depth_at_group))
        + be16(twos16(h.scalar_for_elevations))
        + be16(twos16(h.scalar_for_coordinates))
        + be32(twos32(h.source_x))
        + be32(twos32(h.source_y))
        + be32(twos32(h.group_x))
        + be32(twos32(h.group_y))
        + be16(h.coordinate_units as int)
}

/// Encoding of the velocity, uphole, static, lag and delay fields of a
/// trace header (bytes 91-110).
#[verifier::opaque]
pub open spec fn statics_bytes(h: TraceHeader) -> Seq<u8> {
    be16(h.weathering_velocity as int)
        + be16(h.subweathering_velocity as int)
        + be16(h.uphole_time_at_source as int)
        + be16(h.uphole_time_at_group as int)
        + be16(h.source_static_correction as int)
        + be16(h.group_static_correction as int)
        + be16(h.total_static_applied as int)
        + be16(h.lag_time_a as int)
        + be16(h.lag_time_b as int)
        + be16(h.delay_recording_time as int)
}

/// Encoding of the recording fields of a trace header.
#[verifier::opaque]
pub open spec fn recording_bytes(h: TraceHeader) -> Seq<u8> {
    be16(h.mute_time_start as int)
        + be16(h.mute_time_end as int)
        + be16(h.number_of_samples as int)
        + be16(h.sample_interval as int)
        + be16(h.gain_type as int)
        + be16(h.instrument_gain_constant as int)
        + be16(h.instrument_initial_gain as int)
        + be16(h.correlated as int)
        + be16(h.sweep_freq_start as int)
        + be16(h.sweep_freq_end as int)
        + be16(h.sweep_length as int)
        + be16(h.sweep_type as int)
        + be16(h.sweep_taper_length_start as int)
        + be16(h.sweep_taper_length_end as int)
        + be16(h.taper_type as int)
        + be16(h.alias_filter_freq as int)
        + be16(h.alias_filter_slope as int)
        + be16(h.notch_filter_freq as int)
        + be16(h.notch_filter_slope as int)
        + be16(h.low_cut_freq as int)
        + be16(h.high_cut_freq as int)
        + be16(h.low_cut_slope as int)
        + be16(h.high_cut_slope as int)
}

/// Encoding of the timing fields of a trace header.
#[verifier::opaque]
pub open spec fn timing_bytes(h: TraceHeader) -> Seq<u8> {
    be16(h.year as int)
        + be16(h.day_of_year as int)
        + be16(h.hour as int)
        + be16(h.minute as int)
        + be16(h.second as int)
        + be16(h.time_basis_code as int)
        + be16(h.trace_weighting_factor as int)
        + be16(h.group_number_of_roll_switch as int)
        + be16(h.group_of_first_trace as int)
        + be16(h.group_of_last_trace as int)
        + be16(h.gap_size as int)
        + be16(h.over_travel as int)
}

/// The 240 bytes of a trace header as `write_to` emits them, each field
/// at its SEG-Y revision 1 position: the identity fields (bytes 1-36), the
/// geometry fields (37-90), the velocity, static and delay fields (91-110),
/// the recording fields (111-156), the time fields (157-180), and zeros
/// for the fields of bytes 181-240.
pub open spec fn trace_header_bytes(h: TraceHeader) -> Seq<u8> {
    identity_bytes(h) + geometry_bytes(h) + statics_bytes(h) + recording_bytes(h) + timing_bytes(h) + zeros(60)
}

/// Byte lengths of the encoded field groups.
pub proof fn lemma_block_lengths(h: TraceHeader)
    ensures
        identity_bytes(h).len() == 36,
        geometry_bytes(h).len() == 54,
        statics_bytes(h).len() == 20,
        recording_bytes(h).len() == 46,
        timing_bytes(h).len() == 24,
        trace_header_bytes(h).len() == 240,
{
    reveal(identity_bytes);
    reveal(geometry_bytes);
    reveal(statics_bytes);
    reveal(recording_bytes);
    reveal(timing_bytes);
}

proof fn lemma_sub_left(x: Seq<u8>, y: Seq<u8>, i: int, j: int)
    requires
        0 <= i <= j <= x.len(),
    ensures
        (x + y).subrange(i, j) == x.subrange(i, j),
{
    assert((x + y).subrange(i, j) =~= x.subrange(i, j));
}

proof fn lemma_sub_right(x: Seq<u8>, y: Seq<u8>, i: int, j: int)
    requires
        x.len() <= i <= j <= x.len() + y.len(),
    ensures
        (x + y).subrange(i, j) == y.subrange(i - x.len(), j - x.len()),
{
    assert((x + y).subrange(i, j) =~= y.subrange(i - x.len(), j - x.len()));
}

/// Where the main fields of a trace header sit among its 240 bytes (SEG-Y
/// revision 1 byte positions, counted from 0 here): the sequence number in
/// the line at 0, the ensemble number at 20, the coordinate units at 88,
/// the weathering velocity at 90, the recording delay at 108, the sample
/// count at 114, the sample interval at 116, the year at 156, the over
/// travel at 178, and zeros from 180 on.
pub proof fn lemma_trace_header_positions(h: TraceHeader)
    ensures
        ({
            let b = trace_header_bytes(h);
            &&& b.len() == 240
            &&& b.subrange(0, 4) == be32(twos32(h.trace_sequence_line))
            &&& b.subrange(20, 24) == be32(twos32(h.ensemble_number))
            &&& b.subrange(88, 90) == be16(h.coordinate_units as int)
            &&& b.subrange(90, 92) == be16(h.weathering_velocity as int)
            &&& b.subrange(108, 110) == be16(h.delay_recording_time as int)
            &&& b.subrange(114, 116) == be16(h.number_of_samples as int)
            &&& b.subrange(116, 118) == be16(h.sample_interval as int)
            &&& b.subrange(156, 158) == be16(h.year as int)
            &&& b.subrange(178, 180) == be16(h.over_travel as int)
            &&& b.subrange(180, 240) == zeros(60)
        }),
{
    lemma_block_lengths(h);
    let i = identity_bytes(h);
    let g = geometry_bytes(h);
    let st = statics_bytes(h);
    let r = recording_bytes(h);
    let t = timing_bytes(h);
    let z = zeros(60);
    let ig = i + g;
    let igs = ig + st;
    let igsr = igs + r;
    let igsrt = igsr + t;
    let b = igsrt + z;
    assert(b == trace_header_bytes(h));
    // bytes 0-90: identity and geometry
    assert(i.subrange(0, 4) == be32(twos32(h.trace_sequence_line))) by {
        reveal(identity_bytes);
        assert(i.subrange(0, 4) =~= be32(twos32(h.trace_sequence_line)));
    }
    assert(i.subrange(20, 24) == be32(twos32(h.ensemble_number))) by {
        reveal(identity_bytes);
        assert(i.subrange(20, 24) =~= be32(twos32(h.ensemble_number)));
    }
    assert(g.subrange(52, 54) == be16(h.coordinate_units as int)) by {
        reveal(geometry_bytes);
        assert(g.subrange(52, 54) =~= be16(h.coordinate_units as int));
    }
    lemma_sub_left(i, g, 0, 4);
    lemma_sub_left(i, g, 20, 24);
    lemma_sub_right(i, g, 88, 90);
    lemma_sub_left(ig, st, 0, 4);
    lemma_sub_left(ig, st, 20, 24);
    lemma_sub_left(ig, st, 88, 90);
    lemma_sub_left(igs, r, 0, 4);
    lemma_sub_left(igs, r, 20, 24);
    lemma_sub_left(igs, r, 88, 90);
    lemma_sub_left(igsr, t, 0, 4);
    lemma_sub_left(igsr, t, 20, 24);
    lemma_sub_left(igsr, t, 88, 90);
    lemma_sub_left(igsrt, z, 0, 4);
    lemma_sub_left(igsrt, z, 20, 24);
    lemma_sub_left(igsrt, z, 88, 90);
    // bytes 90-110: velocities, statics, lags, delay
    assert(st.subrange(0, 2) == be16(h.weathering_velocity as int)) by {
        reveal(statics_bytes);
        assert(st.subrange(0, 2) =~= be16(h.weathering_velocity as int));
    }
    assert(st.subrange(18, 20) == be16(h.delay_recording_time as int)) by {
        reveal(statics_bytes);
        assert(st.subrange(18, 20) =~= be16(h.delay_recording_time as int));
    }
    lemma_sub_right(ig, st, 90, 92);
    lemma_sub_right(ig, st, 108, 110);
    lemma_sub_left(igs, r, 90, 92);
    lemma_sub_left(igs, r, 108, 110);
    lemma_sub_left(igsr, t, 90, 92);
    lemma_sub_left(igsr, t, 108, 110);
    lemma_sub_left(igsrt, z, 90, 92);
    lemma_sub_left(igsrt, z, 108, 110);
    // bytes 110-156: recording
    assert(r.subrange(4, 6) == be16(h.number_of_samples as int)) by {
        reveal(recording_bytes);
        assert(r.subrange(4, 6) =~= be16(h.number_of_samples as int));
    }
    assert(r.subrange(6, 8) == be16(h.sample_interval as int)) by {
        reveal(recording_bytes);
        assert(r.subrange(6, 8) =~= be16(h.sample_interval as int));
    }
    lemma_sub_right(igs, r, 114, 116);
    lemma_sub_right(igs, r, 116, 118);
    lemma_sub_left(igsr, t, 114, 116);
    lemma_sub_left(igsr, t, 116, 118);
    lemma_sub_left(igsrt, z, 114, 116);
    lemma_sub_left(igsrt, z, 116, 118);
    // bytes 156-180: time
    assert(t.subrange(0, 2) == be16(h.year as int)) by {
        reveal(timing_bytes);
        assert(t.subrange(0, 2) =~= be16(h.year as int));
    }
    assert(t.subrange(22, 24) == be16(h.over_travel as int)) by {
        reveal(timing_bytes);
        assert(t.subrange(22, 24) =~= be16(h.over_travel as int));
    }
    lemma_sub_right(igsr, t, 156, 158);
    lemma_sub_right(igsr, t, 178, 180);
    lemma_sub_left(igsrt, z, 156, 158);
    lemma_sub_left(igsrt, z, 178, 180);
    // bytes 180-240: zeros
    lemma_sub_right(igsrt, z, 180, 240);
    assert(z.subrange(0, 60) =~= z);
}

/// Where the identity fields, bytes 1-36 of a trace header sit among the 240 bytes that `write_to`
/// emits (SEG-Y revision 1 positions, counted from 0 here): each field, in
/// big-endian order, at its own position (trace_sequence_line, trace_sequence_file, field_record_number, ...).
pub proof fn lemma_trace_identity_positions(h: TraceHeader)
    ensures
        ({
            let b = trace_header_bytes(h);
            &&& b.subrange(0, 4) == be32(twos32(h.trace_sequence_line))
            &&& b.subrange(4, 8) == be32(twos32(h.trace_sequence_file))
            &&& b.subrange(8, 12) == be32(twos32(h.field_record_number))
            &&& b.subrange(12, 16) == be32(twos32(h.trace_number_within_field))
            &&& b.subrange(16, 20) == be32(twos32(h.energy_source_point))
            &&& b.subrange(20, 24) == be32(twos32(h.ensemble_number))
            &&& b.subrange(24, 28) == be32(twos32(h.trace_number_within_ensemble))
            &&& b.subrange(28, 30) == be16(h.trace_id_code as int)
            &&& b.subrange(30, 32) == be16(h.number_of_vertically_summed as int)
            &&& b.subrange(32, 34) == be16(h.number_of_horizontally_summed as int)
            &&& b.subrange(34, 36) == be16(h.data_use as int)
        }),
{
    lemma_block_lengths(h);
    let i = identity_bytes(h);
    let g = geometry_bytes(h);
    let st = statics_bytes(h);
    let r = recording_bytes(h);
    let t = timing_bytes(h);
    let z = zeros(60);
    let blk = i;
    let pre = Seq::<u8>::empty();
    let post = g + st + r + t + z;
    assert(trace_header_bytes(h) =~= pre + blk + post);
    assert(blk.subrange(0, 4) == be32(twos32(h.trace_sequence_line))) by {
        reveal(identity_bytes);
        assert(blk.subrange(0, 4) =~= be32(twos32(h.trace_sequence_line)));
    }
    lemma_within(pre, blk, post, 0, 4);
    assert(blk.subrange(4, 8) == be32(twos32(h.trace_sequence_file))) by {
        reveal(identity_bytes);
        assert(blk.subrange(4, 8) =~= be32(twos32(h.trace_sequence_file)));
    }
    lemma_within(pre, blk, post, 4, 4);
    assert(blk.subrange(8, 12) == be32(twos32(h.field_record_number))) by {
        reveal(identity_bytes);
        assert(blk.subrange(8, 12) =~= be32(twos32(h.field_record_number)));
    }
    lemma_within(pre, blk, post, 8, 4);
    assert(blk.subrange(12, 16) == be32(twos32(h.trace_number_within_field))) by {
        reveal(identity_bytes);
        assert(blk.subrange(12, 16) =~= be32(twos32(h.trace_number_within_field)));
    }
    lemma_within(pre, blk, post, 12, 4);
    assert(blk.subrange(16, 20) == be32(twos32(h.energy_source_point))) by {
        reveal(identity_bytes);
        assert(blk.subrange(16, 20) =~= be32(twos32(h.energy_source_point)));
    }
    lemma_within(pre, blk, post, 16, 4);
    assert(blk.subrange(20, 24) == be32(twos32(h.ensemble_number))) by {
        reveal(identity_bytes);
        assert(blk.subrange(20, 24) =~= be32(twos32(h.ensemble_number)));
    }
    lemma_within(pre, blk, post, 20, 4);
    assert(blk.subrange(24, 28) == be32(twos32(h.trace_number_within_ensemble))) by {
        reveal(identity_bytes);
        assert(blk.subrange(24, 28) =~= be32(twos32(h.trace_number_within_ensemble)));
    }
    lemma_within(pre, blk, post, 24, 4);
    assert(blk.subrange(28, 30) == be16(h.trace_id_code as int)) by {
        reveal(identity_bytes);
        assert(blk.subrange(28, 30) =~= be16(h.trace_id_code as int));
    }
    lemma_within(pre, blk, post, 28, 2);
    assert(blk.subrange(30, 32) == be16(h.number_of_vertically_summed as int)) by {
        reveal(identity_bytes);
        assert(blk.subrange(30, 32) =~= be16(h.number_of_vertically_summed as int));
    }
    lemma_within(pre, blk, post, 30, 2);
    assert(blk.subrange(32, 34) == be16(h.number_of_horizontally_summed as int)) by {
        reveal(identity_bytes);
        assert(blk.subrange(32, 34) =~= be16(h.number_of_horizontally_summed as int));
    }
    lemma_within(pre, blk, post, 32, 2);
    assert(blk.subrange(34, 36) == be16(h.data_use as int)) by {
        reveal(identity_bytes);
        assert(blk.subrange(34, 36) =~= be16(h.data_use as int));
    }
    lemma_within(pre, blk, post, 34, 2);
}

/// Where the geometry fields, bytes 37-90 of a trace header sit among the 240 bytes that `write_to`
/// emits (SEG-Y revision 1 positions, counted from 0 here): each field, in
/// big-endian order, at its own position (source_to_receiver_distance, receiver_group_elevation, surface_elevation_at_source, ...).
pub proof fn lemma_trace_geometry_positions(h: TraceHeader)
    ensures
        ({
            let b = trace_header_bytes(h);
            &&& b.subrange(36, 40) == be32(twos32(h.source_to_receiver_distance))
            &&& b.subrange(40, 44) == be32(twos32(h.receiver_group_elevation))
            &&& b.subrange(44, 48) == be32(twos32(h.surface_elevation_at_source))
            &&& b.subrange(48, 52) == be32(twos32(h.source_depth_below_surface))
            &&& b.subrange(52, 56) == be32(twos32(h.datum_elevation_at_receiver))
            &&& b.subrange(56, 60) == be32(twos32(h.datum_elevation_at_source))
            &&& b.subrange(60, 64) == be32(twos32(h.water_depth_at_source))
            &&& b.subrange(64, 68) == be32(twos32(h.water_depth_at_group))
            &&& b.subrange(68, 70) == be16(twos16(h.scalar_for_elevations))
            &&& b.subrange(70, 72) == be16(twos16(h.scalar_for_coordinates))
            &&& b.subrange(72, 76) == be32(twos32(h.source_x))
            &&& b.subrange(76, 80) == be32(twos32(h.source_y))
            &&& b.subrange(80, 84) == be32(twos32(h.group_x))
            &&& b.subrange(84, 88) == be32(twos32(h.group_y))
            &&& b.subrange(88, 90) == be16(h.coordinate_units as int)
        }),
{
    lemma_block_lengths(h);
    let i = identity_bytes(h);
    let g = geometry_bytes(h);
    let st = statics_bytes(h);
    let r = recording_bytes(h);
    let t = timing_bytes(h);
    let z = zeros(60);
    let blk = g;
    let pre = i;
    let post = st + r + t + z;
    assert(trace_header_bytes(h) =~= pre + blk + post);
    assert(blk.subrange(0, 4) == be32(twos32(h.source_to_receiver_distance))) by {
        reveal(geometry_bytes);
        assert(blk.subrange(0, 4) =~= be32(twos32(h.source_to_receiver_distance)));
    }
    lemma_within(pre, blk, post, 0, 4);
    assert(blk.subrange(4, 8) == be32(twos32(h.receiver_group_elevation))) by {
        reveal(geometry_bytes);
        assert(blk.subrange(4, 8) =~= be32(twos32(h.receiver_group_elevation)));
    }
    lemma_within(pre, blk, post, 4, 4);
    assert(blk.subrange(8, 12) == be32(twos32(h.surface_elevation_at_source))) by {
        reveal(geometry_bytes);
        assert(blk.subrange(8, 12) =~= be32(twos32(h.surface_elevation_at_source)));
    }
    lemma_within(pre, blk, post, 8, 4);
    assert(blk.subrange(12, 16) == be32(twos32(h.source_depth_below_surface))) by {
        reveal(geometry_bytes);
        assert(blk.subrange(12, 16) =~= be32(twos32(h.source_depth_below_surface)));
    }
    lemma_within(pre, blk, post, 12, 4);
    assert(blk.subrange(16, 20) == be32(twos32(h.datum_elevation_at_receiver))) by {
        reveal(geometry_bytes);
        assert(blk.subrange(16, 20) =~= be32(twos32(h.datum_elevation_at_receiver)));
    }
    lemma_within(pre, blk, post, 16, 4);
    assert(blk.subrange(20, 24) == be32(twos32(h.datum_elevation_at_source))) by {
        reveal(geometry_bytes);
        assert(blk.subrange(20, 24) =~= be32(twos32(h.datum_elevation_at_source)));
    }
    lemma_within(pre, blk, post, 20, 4);
    assert(blk.subrange(24, 28) == be32(twos32(h.water_depth_at_source))) by {
        reveal(geometry_bytes);
        assert(blk.subrange(24, 28) =~= be32(twos32(h.water_depth_at_source)));
    }
    lemma_within(pre, blk, post, 24, 4);
    assert(blk.subrange(28, 32) == be32(twos32(h.water_depth_at_group))) by {
        reveal(geometry_bytes);
        assert(blk.subrange(28, 32) =~= be32(twos32(h.water_depth_at_group)));
    }
    lemma_within(pre, blk, post, 28, 4);
    assert(blk.subrange(32, 34) == be16(twos16(h.scalar_for_elevations))) by {
        reveal(geometry_bytes);
        assert(blk.subrange(32, 34) =~= be16(twos16(h.scalar_for_elevations)));
    }
    lemma_within(pre, blk, post, 32, 2);
    assert(blk.subrange(34, 36) == be16(twos16(h.scalar_for_coordinates))) by {
        reveal(geometry_bytes);
        assert(blk.subrange(34, 36) =~= be16(twos16(h.scalar_for_coordinates)));
    }
    lemma_within(pre, blk, post, 34, 2);
    assert(blk.subrange(36, 40) == be32(twos32(h.source_x))) by {
        reveal(geometry_bytes);
        assert(blk.subrange(36, 40) =~= be32(twos32(h.source_x)));
    }
    lemma_within(pre, blk, post, 36, 4);
    assert(blk.subrange(40, 44) == be32(twos32(h.source_y))) by {
        reveal(geometry_bytes);
        assert(blk.subrange(40, 44) =~= be32(twos32(h.source_y)));
    }
    lemma_within(pre, blk, post, 40, 4);
    assert(blk.subrange(44, 48) == be32(twos32(h.group_x))) by {
        reveal(geometry_bytes);
        assert(blk.subrange(44, 48) =~= be32(twos32(h.group_x)));
    }
    lemma_within(pre, blk, post, 44, 4);
    assert(blk.subrange(48, 52) == be32(twos32(h.group_y))) by {
        reveal(geometry_bytes);
        assert(blk.subrange(48, 52) =~= be32(twos32(h.group_y)));
    }
    lemma_within(pre, blk, post, 48, 4);
    assert(blk.subrange(52, 54) == be16(h.coordinate_units as int)) by {
        reveal(geometry_bytes);
        assert(blk.subrange(52, 54) =~= be16(h.coordinate_units as int));
    }
    lemma_within(pre, blk, post, 52, 2);
}

/// Where the velocity, static, lag and delay fields, bytes 91-110 of a trace header sit among the 240 bytes that `write_to`
/// emits (SEG-Y revision 1 positions, counted from 0 here): each field, in
/// big-endian order, at its own position (weathering_velocity, subweathering_velocity, uphole_time_at_source, ...).
pub proof fn lemma_trace_statics_positions(h: TraceHeader)
    ensures
        ({
            let b = trace_header_bytes(h);
            &&& b.subrange(90, 92) == be16(h.weathering_velocity as int)
            &&& b.subrange(92, 94) == be16(h.subweathering_velocity as int)
            &&& b.subrange(94, 96) == be16(h.uphole_time_at_source as int)
            &&& b.subrange(96, 98) == be16(h.uphole_time_at_group as int)
            &&& b.subrange(98, 100) == be16(h.source_static_correction as int)
            &&& b.subrange(100, 102) == be16(h.group_static_correction as int)
            &&& b.subrange(102, 104) == be16(h.total_static_applied as int)
            &&& b.subrange(104, 106) == be16(h.lag_time_a as int)
            &&& b.subrange(106, 108) == be16(h.lag_time_b as int)
            &&& b.subrange(108, 110) == be16(h.delay_recording_time as int)
        }),
{
    lemma_block_lengths(h);
    let i = identity_bytes(h);
    let g = geometry_bytes(h);
    let st = statics_bytes(h);
    let r = recording_bytes(h);
    let t = timing_bytes(h);
    let z = zeros(60);
    let blk = st;
    let pre = i + g;
    let post = r + t + z;
    assert(trace_header_bytes(h) =~= pre + blk + post);
    assert(blk.subrange(0, 2) == be16(h.weathering_velocity as int)) by {
        reveal(statics_bytes);
        assert(blk.subrange(0, 2) =~= be16(h.weathering_velocity as int));
    }
    lemma_within(pre, blk, post, 0, 2);
    assert(blk.subrange(2, 4) == be16(h.subweathering_velocity as int)) by {
        reveal(statics_bytes);
        assert(blk.subrange(2, 4) =~= be16(h.subweathering_velocity as int));
    }
    lemma_within(pre, blk, post, 2, 2);
    assert(blk.subrange(4, 6) == be16(h.uphole_time_at_source as int)) by {
        reveal(statics_bytes);
        assert(blk.subrange(4, 6) =~= be16(h.uphole_time_at_source as int));
    }
    lemma_within(pre, blk, post, 4, 2);
    assert(blk.subrange(6, 8) == be16(h.uphole_time_at_group as int)) by {
        reveal(statics_bytes);
        assert(blk.subrange(6, 8) =~= be16(h.uphole_time_at_group as int));
    }
    lemma_within(pre, blk, post, 6, 2);
    assert(blk.subrange(8, 10) == be16(h.source_static_correction as int)) by {
        reveal(statics_bytes);
        assert(blk.subrange(8, 10) =~= be16(h.source_static_correction as int));
    }
    lemma_within(pre, blk, post, 8, 2);
    assert(blk.subrange(10, 12) == be16(h.group_static_correction as int)) by {
        reveal(statics_bytes);
        assert(blk.subrange(10, 12) =~= be16(h.group_static_correction as int));
    }
    lemma_within(pre, blk, post, 10, 2);
    assert(blk.subrange(12, 14) == be16(h.total_static_applied as int)) by {
        reveal(statics_bytes);
        assert(blk.subrange(12, 14) =~= be16(h.total_static_applied as int));
    }
    lemma_within(pre, blk, post, 12, 2);
    assert(blk.subrange(14, 16) == be16(h.lag_time_a as int)) by {
        reveal(statics_bytes);
        assert(blk.subrange(14, 16) =~= be16(h.lag_time_a as int));
    }
    lemma_within(pre, blk, post, 14, 2);
    assert(blk.subrange(16, 18) == be16(h.lag_time_b as int)) by {
        reveal(statics_bytes);
        assert(blk.subrange(16, 18) =~= be16(h.lag_time_b as int));
    }
    lemma_within(pre, blk, post, 16, 2);
    assert(blk.subrange(18, 20) == be16(h.delay_recording_time as int)) by {
        reveal(statics_bytes);
        assert(blk.subrange(18, 20) =~= be16(h.delay_recording_time as int));
    }
    lemma_within(pre, blk, post, 18, 2);
}

/// Where the recording fields, bytes 111-156 of a trace header sit among the 240 bytes that `write_to`
/// emits (SEG-Y revision 1 positions, counted from 0 here): each field, in
/// big-endian order, at its own position (mute_time_start, mute_time_end, number_of_samples, ...).
#[verifier::rlimit(80)]
pub proof fn lemma_trace_recording_positions(h: TraceHeader)
    ensures
        ({
            let b = trace_header_bytes(h);
            &&& b.subrange(110, 112) == be16(h.mute_time_start as int)
            &&& b.subrange(112, 114) == be16(h.mute_time_end as int)
            &&& b.subrange(114, 116) == be16(h.number_of_samples as int)
            &&& b.subrange(116, 118) == be16(h.sample_interval as int)
            &&& b.subrange(118, 120) == be16(h.gain_type as int)
            &&& b.subrange(120, 122) == be16(h.instrument_gain_constant as int)
            &&& b.subrange(122, 124) == be16(h.instrument_initial_gain as int)
            &&& b.subrange(124, 126) == be16(h.correlated as int)
            &&& b.subrange(126, 128) == be16(h.sweep_freq_start as int)
            &&& b.subrange(128, 130) == be16(h.sweep_freq_end as int)
            &&& b.subrange(130, 132) == be16(h.sweep_length as int)
            &&& b.subrange(132, 134) == be16(h.sweep_type as int)
            &&& b.subrange(134, 136) == be16(h.sweep_taper_length_start as int)
            &&& b.subrange(136, 138) == be16(h.sweep_taper_length_end as int)
            &&& b.subrange(138, 140) == be16(h.taper_type as int)
            &&& b.subrange(140, 142) == be16(h.alias_filter_freq as int)
            &&& b.subrange(142, 144) == be16(h.alias_filter_slope as int)
            &&& b.subrange(144, 146) == be16(h.notch_filter_freq as int)
            &&& b.subrange(146, 148) == be16(h.notch_filter_slope as int)
            &&& b.subrange(148, 150) == be16(h.low_cut_freq as int)
            &&& b.subrange(150, 152) == be16(h.high_cut_freq as int)
            &&& b.subrange(152, 154) == be16(h.low_cut_slope as int)
            &&& b.subrange(154, 156) == be16(h.high_cut_slope as int)
        }),
{
    lemma_block_lengths(h);
    let i = identity_bytes(h);
    let g = geometry_bytes(h);
    let st = statics_bytes(h);
    let r = recording_bytes(h);
    let t = timing_bytes(h);
    let z = zeros(60);
    let blk = r;
    let pre = i + g + st;
    let post = t + z;
    assert(trace_header_bytes(h) =~= pre + blk + post);
    assert(blk.subrange(0, 2) == be16(h.mute_time_start as int)) by {
        reveal(recording_bytes);
        assert(blk.subrange(0, 2) =~= be16(h.mute_time_start as int));
    }
    lemma_within(pre, blk, post, 0, 2);
    assert(blk.subrange(2, 4) == be16(h.mute_time_end as int)) by {
        reveal(recording_bytes);
        assert(blk.subrange(2, 4) =~= be16(h.mute_time_end as int));
    }
    lemma_within(pre, blk, post, 2, 2);
    assert(blk.subrange(4, 6) == be16(h.number_of_samples as int)) by {
        reveal(recording_bytes);
        assert(blk.subrange(4, 6) =~= be16(h.number_of_samples as int));
    }
    lemma_within(pre, blk, post, 4, 2);
    assert(blk.subrange(6, 8) == be16(h.sample_interval as int)) by {
        reveal(recording_bytes);
        assert(blk.subrange(6, 8) =~= be16(h.sample_interval as int));
    }
    lemma_within(pre, blk, post, 6, 2);
    assert(blk.subrange(8, 10) == be16(h.gain_type as int)) by {
        reveal(recording_bytes);
        assert(blk.subrange(8, 10) =~= be16(h.gain_type as int));
    }
    lemma_within(pre, blk, post, 8, 2);
    assert(blk.subrange(10, 12) == be16(h.instrument_gain_constant as int)) by {
        reveal(recording_bytes);
        assert(blk.subrange(10, 12) =~= be16(h.instrument_gain_constant as int));
    }
    lemma_within(pre, blk, post, 10, 2);
    assert(blk.subrange(12, 14) == be16(h.instrument_initial_gain as int)) by {
        reveal(recording_bytes);
        assert(blk.subrange(12, 14) =~= be16(h.instrument_initial_gain as int));
    }
    lemma_within(pre, blk, post, 12, 2);
    assert(blk.subrange(14, 16) == be16(h.correlated as int)) by {
        reveal(recording_bytes);
        assert(blk.subrange(14, 16) =~= be16(h.correlated as int));
    }
    lemma_within(pre, blk, post, 14, 2);
    assert(blk.subrange(16, 18) == be16(h.sweep_freq_start as int)) by {
        reveal(recording_bytes);
        assert(blk.subrange(16, 18) =~= be16(h.sweep_freq_start as int));
    }
    lemma_within(pre, blk, post, 16, 2);
    assert(blk.subrange(18, 20) == be16(h.sweep_freq_end as int)) by {
        reveal(recording_bytes);
        assert(blk.subrange(18, 20) =~= be16(h.sweep_freq_end as int));
    }
    lemma_within(pre, blk, post, 18, 2);
    assert(blk.subrange(20, 22) == be16(h.sweep_length as int)) by {
        reveal(recording_bytes);
        assert(blk.subrange(20, 22) =~= be16(h.sweep_length as int));
    }
    lemma_within(pre, blk, post, 20, 2);
    assert(blk.subrange(22, 24) == be16(h.sweep_type as int)) by {
        reveal(recording_bytes);
        assert(blk.subrange(22, 24) =~= be16(h.sweep_type as int));
    }
    lemma_within(pre, blk, post, 22, 2);
    assert(blk.subrange(24, 26) == be16(h.sweep_taper_length_start as int)) by {
        reveal(recording_bytes);
        assert(blk.subrange(24, 26) =~= be16(h.sweep_taper_length_start as int));
    }
    lemma_within(pre, blk, post, 24, 2);
    assert(blk.subrange(26, 28) == be16(h.sweep_taper_length_end as int)) by {
        reveal(recording_bytes);
        assert(blk.subrange(26, 28) =~= be16(h.sweep_taper_length_end as int));
    }
    lemma_within(pre, blk, post, 26, 2);
    assert(blk.subrange(28, 30) == be16(h.taper_type as int)) by {
        reveal(recording_bytes);
        assert(blk.subrange(28, 30) =~= be16(h.taper_type as int));
    }
    lemma_within(pre, blk, post, 28, 2);
    assert(blk.subrange(30, 32) == be16(h.alias_filter_freq as int)) by {
        reveal(recording_bytes);
        assert(blk.subrange(30, 32) =~= be16(h.alias_filter_freq as int));
    }
    lemma_within(pre, blk, post, 30, 2);
    assert(blk.subrange(32, 34) == be16(h.alias_filter_slope as int)) by {
        reveal(recording_bytes);
        assert(blk.subrange(32, 34) =~= be16(h.alias_filter_slope as int));
    }
    lemma_within(pre, blk, post, 32, 2);
    assert(blk.subrange(34, 36) == be16(h.notch_filter_freq as int)) by {
        reveal(recording_bytes);
        assert(blk.subrange(34, 36) =~= be16(h.notch_filter_freq as int));
    }
    lemma_within(pre, blk, post, 34, 2);
    assert(blk.subrange(36, 38) == be16(h.notch_filter_slope as int)) by {
        reveal(recording_bytes);
        assert(blk.subrange(36, 38) =~= be16(h.notch_filter_slope as int));
    }
    lemma_within(pre, blk, post, 36, 2);
    assert(blk.subrange(38, 40) == be16(h.low_cut_freq as int)) by {
        reveal(recording_bytes);
        assert(blk.subrange(38, 40) =~= be16(h.low_cut_freq as int));
    }
    lemma_within(pre, blk, post, 38, 2);
    assert(blk.subrange(40, 42) == be16(h.high_cut_freq as int)) by {
        reveal(recording_bytes);
        assert(blk.subrange(40, 42) =~= be16(h.high_cut_freq as int));
    }
    lemma_within(pre, blk, post, 40, 2);
    assert(blk.subrange(42, 44) == be16(h.low_cut_slope as int)) by {
        reveal(recording_bytes);
        assert(blk.subrange(42, 44) =~= be16(h.low_cut_slope as int));
    }
    lemma_within(pre, blk, post, 42, 2);
    assert(blk.subrange(44, 46) == be16(h.high_cut_slope as int)) by {
        reveal(recording_bytes);
        assert(blk.subrange(44, 46) =~= be16(h.high_cut_slope as int));
    }
    lemma_within(pre, blk, post, 44, 2);
}

/// Where the time fields, bytes 157-180 of a trace header sit among the 240 bytes that `write_to`
/// emits (SEG-Y revision 1 positions, counted from 0 here): each field, in
/// big-endian order, at its own position (year, day_of_year, hour, ...).
pub proof fn lemma_trace_timing_positions(h: TraceHeader)
    ensures
        ({
            let b = trace_header_bytes(h);
            &&& b.subrange(156, 158) == be16(h.year as int)
            &&& b.subrange(158, 160) == be16(h.day_of_year as int)
            &&& b.subrange(160, 162) == be16(h.hour as int)
            &&& b.subrange(162, 164) == be16(h.minute as int)
            &&& b.subrange(164, 166) == be16(h.second as int)
            &&& b.subrange(166, 168) == be16(h.time_basis_code as int)
            &&& b.subrange(168, 170) == be16(h.trace_weighting_factor as int)
            &&& b.subrange(170, 172) == be16(h.group_number_of_roll_switch as int)
            &&& b.subrange(172, 174) == be16(h.group_of_first_trace as int)
            &&& b.subrange(174, 176) == be16(h.group_of_last_trace as int)
            &&& b.subrange(176, 178) == be16(h.gap_size as int)
            &&& b.subrange(178, 180) == be16(h.over_travel as int)
        }),
{
    lemma_block_lengths(h);
    let i = identity_bytes(h);
    let g = geometry_bytes(h);
    let st = statics_bytes(h);
    let r = recording_bytes(h);
    let t = timing_bytes(h);
    let z = zeros(60);
    let blk = t;
    let pre = i + g + st + r;
    let post = z;
    assert(trace_header_bytes(h) =~= pre + blk + post);
    assert(blk.subrange(0, 2) == be16(h.year as int)) by {
        reveal(timing_bytes);
        assert(blk.subrange(0, 2) =~= be16(h.year as int));
    }
    lemma_within(pre, blk, post, 0, 2);
    assert(blk.subrange(2, 4) == be16(h.day_of_year as int)) by {
        reveal(timing_bytes);
        assert(blk.subrange(2, 4) =~= be16(h.day_of_year as int));
    }
    lemma_within(pre, blk, post, 2, 2);
    assert(blk.subrange(4, 6) == be16(h.hour as int)) by {
        reveal(timing_bytes);
        assert(blk.subrange(4, 6) =~= be16(h.hour as int));
    }
    lemma_within(pre, blk, post, 4, 2);
    assert(blk.subrange(6, 8) == be16(h.minute as int)) by {
        reveal(timing_bytes);
        assert(blk.subrange(6, 8) =~= be16(h.minute as int));
    }
    lemma_within(pre, blk, post, 6, 2);
    assert(blk.subrange(8, 10) == be16(h.second as int)) by {
        reveal(timing_bytes);
        assert(blk.subrange(8, 10) =~= be16(h.second as int));
    }
    lemma_within(pre, blk, post, 8, 2);
    assert(blk.subrange(10, 12) == be16(h.time_basis_code as int)) by {
        reveal(timing_bytes);
        assert(blk.subrange(10, 12) =~= be16(h.time_basis_code as int));
    }
    lemma_within(pre, blk, post, 10, 2);
    assert(blk.subrange(12, 14) == be16(h.trace_weighting_factor as int)) by {
        reveal(timing_bytes);
        assert(blk.subrange(12, 14) =~= be16(h.trace_weighting_factor as int));
    }
    lemma_within(pre, blk, post, 12, 2);
    assert(blk.subrange(14, 16) == be16(h.group_number_of_roll_switch as int)) by {
        reveal(timing_bytes);
        assert(blk.subrange(14, 16) =~= be16(h.group_number_of_roll_switch as int));
    }
    lemma_within(pre, blk, post, 14, 2);
    assert(blk.subrange(16, 18) == be16(h.group_of_first_trace as int)) by {
        reveal(timing_bytes);
        assert(blk.subrange(16, 18) =~= be16(h.group_of_first_trace as int));
    }
    lemma_within(pre, blk, post, 16, 2);
    assert(blk.subrange(18, 20) == be16(h.group_of_last_trace as int)) by {
        reveal(timing_bytes);
        assert(blk.subrange(18, 20) =~= be16(h.group_of_last_trace as int));
    }
    lemma_within(pre, blk, post, 18, 2);
    assert(blk.subrange(20, 22) == be16(h.gap_size as int)) by {
        reveal(timing_bytes);
        assert(blk.subrange(20, 22) =~= be16(h.gap_size as int));
    }
    lemma_within(pre, blk, post, 20, 2);
    assert(blk.subrange(22, 24) == be16(h.over_travel as int)) by {
        reveal(timing_bytes);
        assert(blk.subrange(22, 24) =~= be16(h.over_travel as int));
    }
    lemma_within(pre, blk, post, 22, 2);
}

impl TraceHeader {
    fn write_identity(&self, out: &mut Vec<u8>)
        ensures
            final(out)@ == old(out)@ + identity_bytes(*self),
    {
        reveal(identity_bytes);
        push_i32(out, self.trace_sequence_line);
        let ghost mut acc: Seq<u8> = be32(twos32(self.trace_sequence_line));
        push_i32(out, self.trace_sequence_file);
        proof {
            lemma_add_assoc(old(out)@, acc, be32(twos32(self.trace_sequence_file)));
            acc = acc + be32(twos32(self.trace_sequence_file));
        }
        push_i32(out, self.field_record_number);
        proof {
            lemma_add_assoc(old(out)@, acc, be32(twos32(self.field_record_number)));
            acc = acc + be32(twos32(self.field_record_number));
        }
        push_i32(out, self.trace_number_within_field);
        proof {
            lemma_add_assoc(old(out)@, acc, be32(twos32(self.trace_number_within_field)));
            acc = acc + be32(twos32(self.trace_number_within_field));
        }
        push_i32(out, self.energy_source_point);
        proof {
            lemma_add_assoc(old(out)@, acc, be32(twos32(self.energy_source_point)));
            acc = acc + be32(twos32(self.energy_source_point));
        }
        push_i32(out, self.ensemble_number);
        proof {
            lemma_add_assoc(old(out)@, acc, be32(twos32(self.ensemble_number)));
            acc = acc + be32(twos32(self.ensemble_number));
        }
        push_i32(out, self.trace_number_within_ensemble);
        proof {
            lemma_add_assoc(old(out)@, acc, be32(twos32(self.trace_number_within_ensemble)));
            acc = acc + be32(twos32(self.trace_number_within_ensemble));
        }
        push_u16(out, self.trace_id_code);
        proof {
            lemma_add_assoc(old(out)@, acc, be16(self.trace_id_code as int));
            acc = acc + be16(self.trace_id_code as int);
        }
        push_u16(out, self.number_of_vertically_summed);
        proof {
            lemma_add_assoc(old(out)@, acc, be16(self.number_of_vertically_summed as int));
            acc = acc + be16(self.number_of_vertically_summed as int);
        }
        push_u16(out, self.number_of_horizontally_summed);
        proof {
            lemma_add_assoc(old(out)@, acc, be16(self.number_of_horizontally_summed as int));
            acc = acc + be16(self.number_of_horizontally_summed as int);
        }
        push_u16(out, self.data_use);
        proof {
            lemma_add_assoc(old(out)@, acc, be16(self.data_use as int));
            acc = acc + be16(self.data_use as int);
        }
        assert(acc == identity_bytes(*self));
    }

    fn write_geometry(&self, out: &mut Vec<u8>)
        ensures
            final(out)@ == old(out)@ + geometry_bytes(*self),
    {
        reveal(geometry_bytes);
        push_i32(out, self.source_to_receiver_distance);
        let ghost mut acc: Seq<u8> = be32(twos32(self.source_to_receiver_distance));
        push_i32(out, self.receiver_group_elevation);
        proof {
            lemma_add_assoc(old(out)@, acc, be32(twos32(self.receiver_group_elevation)));
            acc = acc + be32(twos32(self.receiver_group_elevation));
        }
        push_i32(out, self.surface_elevation_at_source);
        proof {
            lemma_add_assoc(old(out)@, acc, be32(twos32(self.surface_elevation_at_source)));
            acc = acc + be32(twos32(self.surface_elevation_at_source));
        }
        push_i32(out, self.source_depth_below_surface);
        proof {
            lemma_add_assoc(old(out)@, acc, be32(twos32(self.source_depth_below_surface)));
            acc = acc + be32(twos32(self.source_depth_below_surface));
        }
        push_i32(out, self.datum_elevation_at_receiver);
        proof {
            lemma_add_assoc(old(out)@, acc, be32(twos32(self.datum_elevation_at_receiver)));
            acc = acc + be32(twos32(self.datum_elevation_at_receiver));
        }
        push_i32(out, self.datum_elevation_at_source);
        proof {
            lemma_add_assoc(old(out)@, acc, be32(twos32(self.datum_elevation_at_source)));
            acc = acc + be32(twos32(self.datum_elevation_at_source));
        }
        push_i32(out, self.water_depth_at_source);
        proof {
            lemma_add_assoc(old(out)@, acc, be32(twos32(self.water_depth_at_source)));
            acc = acc + be32(twos32(self.water_depth_at_source));
        }
        push_i32(out, self.water_depth_at_group);
        proof {
            lemma_add_assoc(old(out)@, acc, be32(twos32(self.water_depth_at_group)));
            acc = acc + be32(twos32(self.water_depth_at_group));
        }
        push_i16(out, self.scalar_for_elevations);
        proof {
            lemma_add_assoc(old(out)@, acc, be16(twos16(self.scalar_for_elevations)));
            acc = acc + be16(twos16(self.scalar_for_elevations));
        }
        push_i16(out, self.scalar_for_coordinates);
        proof {
            lemma_add_assoc(old(out)@, acc, be16(twos16(self.scalar_for_coordinates)));
            acc = acc + be16(twos16(self.scalar_for_coordinates));
        }
        push_i32(out, self.source_x);
        proof {
            lemma_add_assoc(old(out)@, acc, be32(twos32(self.source_x)));
            acc = acc + be32(twos32(self.source_x));
        }
        push_i32(out, self.source_y);
        proof {
            lemma_add_assoc(old(out)@, acc, be32(twos32(self.source_y)));
            acc = acc + be32(twos32(self.source_y));
        }
        push_i32(out, self.group_x);
        proof {
            lemma_add_assoc(old(out)@, acc, be32(twos32(self.group_x)));
            acc = acc + be32(twos32(self.group_x));
        }
        push_i32(out, self.group_y);
        proof {
            lemma_add_assoc(old(out)@, acc, be32(twos32(self.group_y)));
            acc = acc + be32(twos32(self.group_y));
        }
        push_u16(out, self.coordinate_units);
        proof {
            lemma_add_assoc(old(out)@, acc, be16(self.coordinate_units as int));
            acc = acc + be16(self.coordinate_units as int);
        }
        assert(acc == geometry_bytes(*self));
    }

    fn write_statics(&self, out: &mut Vec<u8>)
        ensures
            final(out)@ == old(out)@ + statics_bytes(*self),
    {
        reveal(statics_bytes);
        push_u16(out, self.weathering_velocity);
        let ghost mut acc: Seq<u8> = be16(self.weathering_velocity as int);
        push_u16(out, self.subweathering_velocity);
        proof {
            lemma_add_assoc(old(out)@, acc, be16(self.subweathering_velocity as int));
            acc = acc + be16(self.subweathering_velocity as int);
        }
        push_u16(out, self.uphole_time_at_source);
        proof {
            lemma_add_assoc(old(out)@, acc, be16(self.uphole_time_at_source as int));
            acc = acc + be16(self.uphole_time_at_source as int);
        }
        push_u16(out, self.uphole_time_at_group);
        proof {
            lemma_add_assoc(old(out)@, acc, be16(self.uphole_time_at_group as int));
            acc = acc + be16(self.uphole_time_at_group as int);
        }
        push_u16(out, self.source_static_correction);
        proof {
            lemma_add_assoc(old(out)@, acc, be16(self.source_static_correction as int));
            acc = acc + be16(self.source_static_correction as int);
        }
        push_u16(out, self.group_static_correction);
        proof {
            lemma_add_assoc(old(out)@, acc, be16(self.group_static_correction as int));
            acc = acc + be16(self.group_static_correction as int);
        }
        push_u16(out, self.total_static_applied);
        proof {
            lemma_add_assoc(old(out)@, acc, be16(self.total_static_applied as int));
            acc = acc + be16(self.total_static_applied as int);
        }
        push_u16(out, self.lag_time_a);
        proof {
            lemma_add_assoc(old(out)@, acc, be16(self.lag_time_a as int));
            acc = acc + be16(self.lag_time_a as int);
        }
        push_u16(out, self.lag_time_b);
        proof {
            lemma_add_assoc(old(out)@, acc, be16(self.lag_time_b as int));
            acc = acc + be16(self.lag_time_b as int);
        }
        push_u16(out, self.delay_recording_time);
        proof {
            lemma_add_assoc(old(out)@, acc, be16(self.delay_recording_time as int));
            acc = acc + be16(self.delay_recording_time as int);
        }
        assert(acc == statics_bytes(*self));
    }

    fn write_recording(&self, out: &mut Vec<u8>)
        ensures
            final(out)@ == old(out)@ + recording_bytes(*self),
    {
        reveal(recording_bytes);
        push_u16(out, self.mute_time_start);
        let ghost mut acc: Seq<u8> = be16(self.mute_time_start as int);
        push_u16(out, self.mute_time_end);
        proof {
            lemma_add_assoc(old(out)@, acc, be16(self.mute_time_end as int));
            acc = acc + be16(self.mute_time_end as int);
        }
        push_u16(out, self.number_of_samples);
        proof {
            lemma_add_assoc(old(out)@, acc, be16(self.number_of_samples as int));
            acc = acc + be16(self.number_of_samples as int);
        }
        push_u16(out, self.sample_interval);
        proof {
            lemma_add_assoc(old(out)@, acc, be16(self.sample_interval as int));
            acc = acc + be16(self.sample_interval as int);
        }
        push_u16(out, self.gain_type);
        proof {
            lemma_add_assoc(old(out)@, acc, be16(self.gain_type as int));
            acc = acc + be16(self.gain_type as int);
        }
        push_u16(out, self.instrument_gain_constant);
        proof {
            lemma_add_assoc(old(out)@, acc, be16(self.instrument_gain_constant as int));
            acc = acc + be16(self.instrument_gain_constant as int);
        }
        push_u16(out, self.instrument_initial_gain);
        proof {
            lemma_add_assoc(old(out)@, acc, be16(self.instrument_initial_gain as int));
            acc = acc + be16(self.instrument_initial_gain as int);
        }
        push_u16(out, self.correlated);
        proof {
            lemma_add_assoc(old(out)@, acc, be16(self.correlated as int));
            acc = acc + be16(self.correlated as int);
        }
        push_u16(out, self.sweep_freq_start);
        proof {
            lemma_add_assoc(old(out)@, acc, be16(self.sweep_freq_start as int));
            acc = acc + be16(self.sweep_freq_start as int);
        }
        push_u16(out, self.sweep_freq_end);
        proof {
            lemma_add_assoc(old(out)@, acc, be16(self.sweep_freq_end as int));
            acc = acc + be16(self.sweep_freq_end as int);
        }
        push_u16(out, self.sweep_length);
        proof {
            lemma_add_assoc(old(out)@, acc, be16(self.sweep_length as int));
            acc = acc + be16(self.sweep_length as int);
        }
        push_u16(out, self.sweep_type);
        proof {
            lemma_add_assoc(old(out)@, acc, be16(self.sweep_type as int));
            acc = acc + be16(self.sweep_type as int);
        }
        push_u16(out, self.sweep_taper_length_start);
        proof {
            lemma_add_assoc(old(out)@, acc, be16(self.sweep_taper_length_start as int));
            acc = acc + be16(self.sweep_taper_length_start as int);
        }
        push_u16(out, self.sweep_taper_length_end);
        proof {
            lemma_add_assoc(old(out)@, acc, be16(self.sweep_taper_length_end as int));
            acc = acc + be16(self.sweep_taper_length_end as int);
        }
        push_u16(out, self.taper_type);
        proof {
            lemma_add_assoc(old(out)@, acc, be16(self.taper_type as int));
            acc = acc + be16(self.taper_type as int);
        }
        push_u16(out, self.alias_filter_freq);
        proof {
            lemma_add_assoc(old(out)@, acc, be16(self.alias_filter_freq as int));
            acc = acc + be16(self.alias_filter_freq as int);
        }
        push_u16(out, self.alias_filter_slope);
        proof {
            lemma_add_assoc(old(out)@, acc, be16(self.alias_filter_slope as int));
            acc = acc + be16(self.alias_filter_slope as int);
        }
        push_u16(out, self.notch_filter_freq);
        proof {
            lemma_add_assoc(old(out)@, acc, be16(self.notch_filter_freq as int));
            acc = acc + be16(self.notch_filter_freq as int);
        }
        push_u16(out, self.notch_filter_slope);
        proof {
            lemma_add_assoc(old(out)@, acc, be16(self.notch_filter_slope as int));
            acc = acc + be16(self.notch_filter_slope as int);
        }
        push_u16(out, self.low_cut_freq);
        proof {
            lemma_add_assoc(old(out)@, acc, be16(self.low_cut_freq as int));
            acc = acc + be16(self.low_cut_freq as int);
        }
        push_u16(out, self.high_cut_freq);
        proof {
            lemma_add_assoc(old(out)@, acc, be16(self.high_cut_freq as int));
            acc = acc + be16(self.high_cut_freq as int);
        }
        push_u16(out, self.low_cut_slope);
        proof {
            lemma_add_assoc(old(out)@, acc, be16(self.low_cut_slope as int));
            acc = acc + be16(self.low_cut_slope as int);
        }
        push_u16(out, self.high_cut_slope);
        proof {
            lemma_add_assoc(old(out)@, acc, be16(self.high_cut_slope as int));
            acc = acc + be16(self.high_cut_slope as int);
        }
        assert(acc == recording_bytes(*self));
    }

    fn write_timing(&self, out: &mut Vec<u8>)
        ensures
            final(out)@ == old(out)@ + timing_bytes(*self),
    {
        reveal(timing_bytes);
        push_u16(out, self.year);
        let ghost mut acc: Seq<u8> = be16(self.year as int);
        push_u16(out, self.day_of_year);
        proof {
            lemma_add_assoc(old(out)@, acc, be16(self.day_of_year as int));
            acc = acc + be16(self.day_of_year as int);
        }
        push_u16(out, self.hour);
        proof {
            lemma_add_assoc(old(out)@, acc, be16(self.hour as int));
            acc = acc + be16(self.hour as int);
        }
        push_u16(out, self.minute);
        proof {
            lemma_add_assoc(old(out)@, acc, be16(self.minute as int));
            acc = acc + be16(self.minute as int);
        }
        push_u16(out, self.second);
        proof {
            lemma_add_assoc(old(out)@, acc, be16(self.second as int));
            acc = acc + be16(self.second as int);
        }
        push_u16(out, self.time_basis_code);
        proof {
            lemma_add_assoc(old(out)@, acc, be16(self.time_basis_code as int));
            acc = acc + be16(self.time_basis_code as int);
        }
        push_u16(out, self.trace_weighting_factor);
        proof {
            lemma_add_assoc(old(out)@, acc, be16(self.trace_weighting_factor as int));
            acc = acc + be16(self.trace_weighting_factor as int);
        }
        push_u16(out, self.group_number_of_roll_switch);
        proof {
            lemma_add_assoc(old(out)@, acc, be16(self.group_number_of_roll_switch as int));
            acc = acc + be16(self.group_number_of_roll_switch as int);
        }
        push_u16(out, self.group_of_first_trace);
        proof {
            lemma_add_assoc(old(out)@, acc, be16(self.group_of_first_trace as int));
            acc = acc + be16(self.group_of_first_trace as int);
        }
        push_u16(out, self.group_of_last_trace);
        proof {
            lemma_add_assoc(old(out)@, acc, be16(self.group_of_last_trace as int));
            acc = acc + be16(self.group_of_last_trace as int);
        }
        push_u16(out, self.gap_size);
        proof {
            lemma_add_assoc(old(out)@, acc, be16(self.gap_size as int));
            acc = acc + be16(self.gap_size as int);
        }
        push_u16(out, self.over_travel);
        proof {
            lemma_add_assoc(old(out)@, acc, be16(self.over_travel as int));
            acc = acc + be16(self.over_travel as int);
        }
        assert(acc == timing_bytes(*self));
    }

    /// Appends the encoded header to `out`: 240 bytes, each field in
    /// big-endian order at its position.
    pub fn write_to(&self, out: &mut Vec<u8>)
        ensures
            final(out)@ == old(out)@ + trace_header_bytes(*self),
            final(out)@.len() == old(out)@.len() + TRACE_HEADER_SIZE,
    {
        let ghost start = out@;
        proof { lemma_block_lengths(*self); }
        self.write_identity(out);
        let ghost s1 = out@;
        self.write_geometry(out);
        proof { lemma_add_assoc(start, identity_bytes(*self), geometry_bytes(*self)); }
        self.write_statics(out);
        proof { lemma_add_assoc(start, identity_bytes(*self) + geometry_bytes(*self), statics_bytes(*self)); }
        self.write_recording(out);
        proof { lemma_add_assoc(start, identity_bytes(*self) + geometry_bytes(*self) + statics_bytes(*self), recording_bytes(*self)); }
        self.write_timing(out);
        proof { lemma_add_assoc(start, identity_bytes(*self) + geometry_bytes(*self) + statics_bytes(*self) + recording_bytes(*self), timing_bytes(*self)); }
        push_zeros(out, 60);
        proof { lemma_add_assoc(start, identity_bytes(*self) + geometry_bytes(*self) + statics_bytes(*self) + recording_bytes(*self) + timing_bytes(*self), zeros(60)); }
    }
}

/// The 16-bit value `v` wraps to, as `v as u16` gives it.
pub open spec fn wrap16(v: int) -> u16 {
    (v % 65536) as u16
}

/// `y as u16` for a 32-bit signed `y`.
pub fn wrap16_i32(y: i32) -> (r: u16)
    ensures
        r == wrap16(y as int),
{
    if y >= 0 {
        (y % 65536) as u16
    } else {
        let a: i64 = (-(y as i64)) % 65536;
        if a == 0 {
            0
        } else {
            (65536 - a) as u16
        }
    }
}

/// `v as u16` for a 32-bit unsigned `v`.
pub fn wrap16_u32(v: u32) -> (r: u16)
    ensures
        r == wrap16(v as int),
{
    (v % 65536) as u16
}

impl TraceHeader {
    /// Sets the recording time fields from `dt`: year, day of the year,
    /// hour, minute and second, each cut to 16 bits.
    pub fn set_time(&mut self, dt: &UtcTime)
        ensures
            *final(self) == (TraceHeader {
                year: wrap16(dt@.year),
                day_of_year: wrap16(dt@.ordinal),
                hour: wrap16(dt@.hour),
                minute: wrap16(dt@.minute),
                second: wrap16(dt@.second),
                ..*old(self)
            }),
    {
        self.year = wrap16_i32(dt.year());
        self.day_of_year = wrap16_u32(dt.ordinal());
        self.hour = wrap16_u32(dt.hour());
        self.minute = wrap16_u32(dt.minute());
        self.second = wrap16_u32(dt.second());
    }
}

} // verus!
