//! Verified core of a streaming-media downloader: a DASH-MPD manifest
//! model with its parser and serializer, a flat format catalog, segment
//! URL resolution, and an ordered segmented-retrieval engine.

mod catalog;
mod dash;
mod duration;
mod errors;
mod meta;
mod mpd;
mod query;
mod retrieve;
mod wire;
mod xml;

pub use catalog::Format;
pub use catalog::FormatView;
pub use catalog::distinct_itags;
pub use catalog::format_views;
pub use catalog::lemma_format_equality_itag_only;
pub use catalog::lemma_sorted_distinct_strictly_ascending;
pub use catalog::sorted_by_itag;
pub use catalog::InfoResponse;
pub use catalog::InfoResponseView;
pub use catalog::StreamingData;
pub use catalog::StreamingDataView;
pub use catalog::VideoDetails;
pub use catalog::VideoDetailsView;
pub use dash::Addressing;
pub use dash::AddressingView;
pub use dash::AdaptationSet;
pub use dash::AdaptationSetView;
pub use dash::Initialization;
pub use dash::Manifest;
pub use dash::ManifestView;
pub use dash::Period;
pub use dash::PeriodView;
pub use dash::Role;
pub use dash::RoleView;
pub use dash::adaptation_set_views;
pub use dash::flat_streams;
pub use dash::lemma_flat_streams_len;
pub use dash::lemma_flat_streams_snoc;
pub use dash::period_views;
pub use dash::representation_views;
pub use dash::total_sets;
pub use dash::Representation;
pub use dash::RepresentationView;
pub use dash::SegmentList;
pub use dash::SegmentListView;
pub use dash::SegmentURL;
pub use dash::join_url;
pub use dash::lex_cmp;
pub use dash::str_cmp;
pub use dash::resolved_urls;
pub use dash::segment_url_views;
pub use dash::string_views;
pub use duration::Duration;
pub use errors::MetadataError;
pub use errors::ParseError;
pub use errors::ResolutionError;
pub use errors::RetrievalError;
pub use meta::extract_player_response;
pub use meta::find_field;
pub use meta::first_value;
pub use meta::form_pairs_of;
pub use meta::pair_views;
pub use mpd::ParseErrorView;
pub use mpd::attr_of;
pub use mpd::bool_str;
pub use mpd::build_adaptation_set;
pub use mpd::build_adaptation_sets;
pub use mpd::build_addressing;
pub use mpd::build_manifest;
pub use mpd::build_manifest_x;
pub use mpd::build_period;
pub use mpd::build_periods;
pub use mpd::build_representation;
pub use mpd::build_representations;
pub use mpd::build_role;
pub use mpd::build_segment_list;
pub use mpd::build_segment_url;
pub use mpd::build_segment_urls;
pub use mpd::child_named;
pub use mpd::children_named;
pub use mpd::dec_str;
pub use mpd::digit_char;
pub use mpd::interpret_adaptation_set;
pub use mpd::interpret_adaptation_sets;
pub use mpd::interpret_addressing;
pub use mpd::interpret_manifest;
pub use mpd::interpret_period;
pub use mpd::interpret_periods;
pub use mpd::interpret_representation;
pub use mpd::interpret_representations;
pub use mpd::interpret_role;
pub use mpd::interpret_segment_list;
pub use mpd::interpret_segment_urls;
pub use mpd::lemma_dec_str_digits;
pub use mpd::lemma_dec_str_val;
pub use mpd::lemma_manifest_document_round_trip;
pub use mpd::lemma_manifest_round_trip;
pub use mpd::markup_clean_addressing;
pub use mpd::markup_clean_manifest;
pub use mpd::markup_clean_period;
pub use mpd::markup_clean_representation;
pub use mpd::markup_clean_set;
pub use mpd::opt_bool_attr;
pub use mpd::opt_flag_attr;
pub use mpd::opt_num_attr;
pub use mpd::opt_text_attr;
pub use mpd::opt_u32_attr;
pub use mpd::parse_manifest;
pub use mpd::parse_manifest_spec;
pub use mpd::rep_attr_model;
pub use mpd::serialize_manifest;
pub use mpd::set_attr_model;
pub use query::Query;
pub use query::lemma_split_spaces_nonempty;
pub use query::split_spaces;
pub use query::video_info_url;
pub use query::video_info_url_spec;
pub use query::video_info_urls;
pub use retrieve::DownloadSession;
pub use retrieve::SegmentResponse;
pub use retrieve::SegmentResponseView;
pub use retrieve::chunk_views;
pub use retrieve::chunks_upto;
pub use retrieve::clone_strings;
pub use retrieve::concat_all;
pub use retrieve::lemma_concat_all_snoc;
pub use retrieve::response_views;
pub use retrieve::run_download;
pub use wire::all_digits;
pub use wire::dec_val;
pub use wire::digit_val;
pub use wire::fits_u64;
pub use wire::from_millis;
pub use wire::from_millis_option;
pub use wire::from_secs;
pub use wire::from_secs_option;
pub use wire::from_str;
pub use wire::from_str_option;
pub use wire::is_digit;
pub use wire::mime_accepts;
pub use wire::mime_canonical;
pub use wire::option_from_str;
pub use wire::option_to_str;
pub use wire::parse_u64;
pub use wire::to_str;
pub use xml::Node;
pub use xml::NodeView;
pub use xml::lemma_node_views;
pub use xml::lemma_node_views_push;
pub use xml::node_view;
pub use xml::parse_document;
pub use xml::lemma_read_write_document;
pub use xml::read_document;
pub use xml::wf_children;
pub use xml::wf_name;
pub use xml::wf_node;
pub use xml::wf_text;
pub use xml::wf_value;
pub use xml::str_eq;
pub use xml::attr_views;
pub use xml::node_views;
pub use xml::render_node;
pub use xml::write_attrs;
pub use xml::write_children;
pub use xml::write_node;
