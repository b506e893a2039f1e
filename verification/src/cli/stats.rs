//! Reports of image statistics.

use crate::cli::render::{bool_text, bool_word};
use crate::cli::report::NumberText;
use crate::cli::table::row_texts;
use crate::text::{concat3, decimal, decimal_text, texts};
use vstd::prelude::*;

verus! {

/// Statistics of one image. Hue has two decimals, other numbers have four.
#[derive(Debug)]
pub struct ImageStatsReport {
    /// Label of the image.
    pub input: String,
    /// Width in pixels.
    pub width: u32,
    /// Height in pixels.
    pub height: u32,
    /// Number of pixels.
    pub pixels: u64,
    /// Mean of red.
    pub red_mean: NumberText,
    /// Mean of green.
    pub green_mean: NumberText,
    /// Mean of blue.
    pub blue_mean: NumberText,
    /// Channel with the largest mean.
    pub dominant_channel: String,
    /// Mean luma.
    pub luma_mean: NumberText,
    /// Standard deviation of luma.
    pub luma_std_dev: NumberText,
    /// Fifth percentile of luma.
    pub luma_p05: NumberText,
    /// Ninety-fifth percentile of luma.
    pub luma_p95: NumberText,
    /// Entropy of luma in bits.
    pub luma_entropy_bits: NumberText,
    /// Mean hue in degrees.
    pub mean_hue_degrees: NumberText,
    /// Mean saturation.
    pub mean_saturation: NumberText,
    /// Mean value.
    pub mean_value: NumberText,
    /// Exposure tendency.
    pub exposure: String,
    /// Contrast tendency.
    pub contrast: String,
    /// Saturation tendency.
    pub saturation: String,
    /// Temperature tendency.
    pub temperature: String,
    /// Tint tendency.
    pub tint: String,
    /// The image looks gray.
    pub likely_grayscale: bool,
    /// The image has a color cast.
    pub color_cast: bool,
    /// Shadows are clipped.
    pub shadow_clipping: bool,
    /// Highlights are clipped.
    pub highlight_clipping: bool,
    /// Some pixels are transparent.
    pub has_transparency: bool,
}

/// Text of image statistics: size and tendencies.
pub open spec fn stats_head(report: ImageStatsReport) -> Seq<char> {
    "image     : "@ + report.input@ + "\n"@ + "size      : "@ + decimal_text(report.width as nat)
        + "x"@ + decimal_text(report.height as nat) + "\n"@ + "pixels    : "@ + decimal_text(
        report.pixels as nat,
    ) + "\n"@ + "exposure  : "@ + report.exposure@ + "  contrast: "@ + report.contrast@
        + "  saturation: "@ + report.saturation@ + "\n"@ + "temp/tint : "@ + report.temperature@
        + " / "@ + report.tint@ + "\n"@
}

/// Text of image statistics: numbers and flags.
pub open spec fn stats_body(report: ImageStatsReport) -> Seq<char> {
    "rgb mean  : r="@ + report.red_mean.fixed@ + " g="@ + report.green_mean.fixed@ + " b="@
        + report.blue_mean.fixed@ + " dominant="@ + report.dominant_channel@ + "\n"@
        + "luma      : mean="@ + report.luma_mean.fixed@ + " std="@ + report.luma_std_dev.fixed@
        + " p05="@ + report.luma_p05.fixed@ + " p95="@ + report.luma_p95.fixed@ + " entropy="@
        + report.luma_entropy_bits.fixed@ + "\n"@ + "hsv       : hue="@
        + report.mean_hue_degrees.fixed@ + " sat="@ + report.mean_saturation.fixed@ + " value="@
        + report.mean_value.fixed@ + "\n"@ + "flags     : grayscale="@ + bool_text(
        report.likely_grayscale,
    ) + " cast="@ + bool_text(report.color_cast) + " shadow_clip="@ + bool_text(
        report.shadow_clipping,
    ) + " highlight_clip="@ + bool_text(report.highlight_clipping) + " transparency="@ + bool_text(
        report.has_transparency,
    ) + "\n"@
}

fn write_head(report: &ImageStatsReport) -> (text: String)
    ensures
        text@ == stats_head(*report),
{
    let mut text = concat3("image     : ", report.input.as_str(), "\n");
    text.append("size      : ");
    text.append(decimal(report.width as u64).as_str());
    text.append("x");
    text.append(decimal(report.height as u64).as_str());
    text.append("\n");
    text.append("pixels    : ");
    text.append(decimal(report.pixels).as_str());
    text.append("\n");
    text.append("exposure  : ");
    text.append(report.exposure.as_str());
    text.append("  contrast: ");
    text.append(report.contrast.as_str());
    text.append("  saturation: ");
    text.append(report.saturation.as_str());
    text.append("\n");
    text.append("temp/tint : ");
    text.append(report.temperature.as_str());
    text.append(" / ");
    text.append(report.tint.as_str());
    text.append("\n");
    text
}

fn write_body(report: &ImageStatsReport) -> (text: String)
    ensures
        text@ == stats_body(*report),
{
    let mut text = concat3("rgb mean  : r=", report.red_mean.fixed.as_str(), " g=");
    text.append(report.green_mean.fixed.as_str());
    text.append(" b=");
    text.append(report.blue_mean.fixed.as_str());
    text.append(" dominant=");
    text.append(report.dominant_channel.as_str());
    text.append("\n");
    text.append("luma      : mean=");
    text.append(report.luma_mean.fixed.as_str());
    text.append(" std=");
    text.append(report.luma_std_dev.fixed.as_str());
    text.append(" p05=");
    text.append(report.luma_p05.fixed.as_str());
    text.append(" p95=");
    text.append(report.luma_p95.fixed.as_str());
    text.append(" entropy=");
    text.append(report.luma_entropy_bits.fixed.as_str());
    text.append("\n");
    text.append("hsv       : hue=");
    text.append(report.mean_hue_degrees.fixed.as_str());
    text.append(" sat=");
    text.append(report.mean_saturation.fixed.as_str());
    text.append(" value=");
    text.append(report.mean_value.fixed.as_str());
    text.append("\n");
    text.append("flags     : grayscale=");
    text.append(bool_word(report.likely_grayscale));
    text.append(" cast=");
    text.append(bool_word(report.color_cast));
    text.append(" shadow_clip=");
    text.append(bool_word(report.shadow_clipping));
    text.append(" highlight_clip=");
    text.append(bool_word(report.highlight_clipping));
    text.append(" transparency=");
    text.append(bool_word(report.has_transparency));
    text.append("\n");
    text
}

/// Writes image statistics.
pub fn render_stats_text(report: &ImageStatsReport) -> (text: String)
    ensures
        text@ == stats_head(*report) + stats_body(*report),
{
    let mut text = write_head(report);
    text.append(write_body(report).as_str());
    text
}

/// Names and values of image statistics in a table.
pub open spec fn stats_values(report: ImageStatsReport) -> Seq<(Seq<char>, Seq<char>)> {
    seq![
        ("red_mean"@, report.red_mean.plain@),
        ("green_mean"@, report.green_mean.plain@),
        ("blue_mean"@, report.blue_mean.plain@),
        ("luma_mean"@, report.luma_mean.plain@),
        ("luma_std_dev"@, report.luma_std_dev.plain@),
        ("luma_p05"@, report.luma_p05.plain@),
        ("luma_p95"@, report.luma_p95.plain@),
        ("hue_degrees"@, report.mean_hue_degrees.plain@),
        ("saturation_mean"@, report.mean_saturation.plain@),
        ("value_mean"@, report.mean_value.plain@),
        ("exposure"@, report.exposure@),
        ("contrast"@, report.contrast@),
        ("temperature"@, report.temperature@),
        ("tint"@, report.tint@),
        ("dominant_channel"@, report.dominant_channel@),
        ("likely_grayscale"@, bool_text(report.likely_grayscale)),
        ("color_cast"@, bool_text(report.color_cast)),
    ]
}

/// Columns of image statistics.
pub open spec fn stats_columns() -> Seq<Seq<char>> {
    seq![
        "input"@,
        "width"@,
        "height"@,
        "pixels"@,
        "metric"@,
        "value"@,
    ]
}

/// Header of image statistics.
pub fn stats_csv_header() -> (header: Vec<String>)
    ensures
        texts(header@) == stats_columns(),
{
    let header = vec![
        String::from_str("input"),
        String::from_str("width"),
        String::from_str("height"),
        String::from_str("pixels"),
        String::from_str("metric"),
        String::from_str("value"),
    ];
    assert(texts(header@) =~= stats_columns());
    header
}

/// Rows of image statistics.
pub open spec fn stats_rows(report: ImageStatsReport) -> Seq<Seq<Seq<char>>> {
    Seq::new(
        stats_values(report).len(),
        |i: int|
            seq![
                report.input@,
                decimal_text(report.width as nat),
                decimal_text(report.height as nat),
                decimal_text(report.pixels as nat),
                stats_values(report)[i].0,
                stats_values(report)[i].1,
            ],
    )
}

fn stats_row(report: &ImageStatsReport, name: &str, value: &str) -> (row: Vec<String>)
    ensures
        texts(row@) == seq![
            report.input@,
            decimal_text(report.width as nat),
            decimal_text(report.height as nat),
            decimal_text(report.pixels as nat),
            name@,
            value@,
        ],
{
    let row = vec![
        report.input.clone(),
        decimal(report.width as u64),
        decimal(report.height as u64),
        decimal(report.pixels),
        String::from_str(name),
        String::from_str(value),
    ];
    assert(texts(row@) =~= seq![
        report.input@,
        decimal_text(report.width as nat),
        decimal_text(report.height as nat),
        decimal_text(report.pixels as nat),
        name@,
        value@,
    ]);
    row
}

/// Rows of image statistics.
pub fn stats_csv_rows(report: &ImageStatsReport) -> (rows: Vec<Vec<String>>)
    ensures
        row_texts(rows@) == stats_rows(*report),
{
    let rows = vec![
        stats_row(report, "red_mean", report.red_mean.plain.as_str()),
        stats_row(report, "green_mean", report.green_mean.plain.as_str()),
        stats_row(report, "blue_mean", report.blue_mean.plain.as_str()),
        stats_row(report, "luma_mean", report.luma_mean.plain.as_str()),
        stats_row(report, "luma_std_dev", report.luma_std_dev.plain.as_str()),
        stats_row(report, "luma_p05", report.luma_p05.plain.as_str()),
        stats_row(report, "luma_p95", report.luma_p95.plain.as_str()),
        stats_row(report, "hue_degrees", report.mean_hue_degrees.plain.as_str()),
        stats_row(report, "saturation_mean", report.mean_saturation.plain.as_str()),
        stats_row(report, "value_mean", report.mean_value.plain.as_str()),
        stats_row(report, "exposure", report.exposure.as_str()),
        stats_row(report, "contrast", report.contrast.as_str()),
        stats_row(report, "temperature", report.temperature.as_str()),
        stats_row(report, "tint", report.tint.as_str()),
        stats_row(report, "dominant_channel", report.dominant_channel.as_str()),
        stats_row(report, "likely_grayscale", bool_word(report.likely_grayscale)),
        stats_row(report, "color_cast", bool_word(report.color_cast)),
    ];
    assert(row_texts(rows@) =~= stats_rows(*report));
    rows
}

/// Every statistic has a row with its name and its own value, behind input and size.
pub proof fn law_statistics_are_named(report: ImageStatsReport)
    ensures
        ({
            let rows = stats_rows(report);
            let is = |i: int, name: Seq<char>, value: Seq<char>|
                rows[i].len() == 6 && rows[i][0] == report.input@ && rows[i][1] == decimal_text(
                    report.width as nat,
                ) && rows[i][2] == decimal_text(report.height as nat) && rows[i][3]
                    == decimal_text(report.pixels as nat) && rows[i][4] == name && rows[i][5]
                    == value;
            &&& rows.len() == 17
            &&& is(0, "red_mean"@, report.red_mean.plain@)
            &&& is(1, "green_mean"@, report.green_mean.plain@)
            &&& is(2, "blue_mean"@, report.blue_mean.plain@)
            &&& is(3, "luma_mean"@, report.luma_mean.plain@)
            &&& is(4, "luma_std_dev"@, report.luma_std_dev.plain@)
            &&& is(5, "luma_p05"@, report.luma_p05.plain@)
            &&& is(6, "luma_p95"@, report.luma_p95.plain@)
            &&& is(7, "hue_degrees"@, report.mean_hue_degrees.plain@)
            &&& is(8, "saturation_mean"@, report.mean_saturation.plain@)
            &&& is(9, "value_mean"@, report.mean_value.plain@)
            &&& is(10, "exposure"@, report.exposure@)
            &&& is(11, "contrast"@, report.contrast@)
            &&& is(12, "temperature"@, report.temperature@)
            &&& is(13, "tint"@, report.tint@)
            &&& is(14, "dominant_channel"@, report.dominant_channel@)
            &&& is(15, "likely_grayscale"@, if report.likely_grayscale {
                "true"@
            } else {
                "false"@
            })
            &&& is(16, "color_cast"@, if report.color_cast {
                "true"@
            } else {
                "false"@
            })
            &&& stats_columns().len() == 6
            &&& stats_columns()[4] == "metric"@
            &&& stats_columns()[5] == "value"@
        }),
{
}

} // verus!
