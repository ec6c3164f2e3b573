use coletor_imagem_radar::config::ProductConfig;
use coletor_imagem_radar::momento::Momento;
use coletor_imagem_radar::nodd::{
    dest_pmtiles_key, parse_frame_times, parse_nodd_time, source_hour_prefix,
};
use time::{Date, Month, OffsetDateTime, UtcOffset};

fn product() -> ProductConfig {
    ProductConfig {
        name: "abi-l2-cmipf-c13".into(),
        source_prefix: "ABI-L2-CMIPF".into(),
        channel: Some("C13".into()),
        poll_interval_secs: 120,
    }
}

fn momento(t: OffsetDateTime) -> Momento {
    Momento {
        nanos: t.unix_timestamp_nanos(),
        deslocamento: t.offset().whole_seconds(),
    }
}

fn utc(ano: i32, mes: Month, dia: u8, h: u8, m: u8, s: u8, ms: u16) -> OffsetDateTime {
    Date::from_calendar_date(ano, mes, dia)
        .unwrap()
        .with_hms_milli(h, m, s, ms)
        .unwrap()
        .assume_utc()
}

#[test]
fn prefix_usa_dia_juliano_e_hora_utc() {
    // 2026-05-29 = dia-do-ano 149.
    let t = utc(2026, Month::May, 29, 14, 37, 0, 0);
    assert_eq!(
        source_hour_prefix(&product(), momento(t)),
        "ABI-L2-CMIPF/2026/149/14/"
    );
}

#[test]
fn prefix_converte_para_utc() {
    // Mesmo instante, expresso em -03:00 → ainda 17h UTC.
    let t = Date::from_calendar_date(2026, Month::January, 1)
        .unwrap()
        .with_hms(14, 0, 0)
        .unwrap()
        .assume_offset(UtcOffset::from_hms(-3, 0, 0).unwrap());
    assert_eq!(momento(t).deslocamento, -3 * 3600);
    assert_eq!(
        source_hour_prefix(&product(), momento(t)),
        "ABI-L2-CMIPF/2026/001/17/"
    );
}

#[test]
fn prefix_troca_o_ano_ao_converter() {
    let t = Date::from_calendar_date(2025, Month::December, 31)
        .unwrap()
        .with_hms(23, 30, 0)
        .unwrap()
        .assume_offset(UtcOffset::from_hms(-3, 0, 0).unwrap());
    assert_eq!(
        source_hour_prefix(&product(), momento(t)),
        "ABI-L2-CMIPF/2026/001/02/"
    );
}

#[test]
fn prefix_tira_as_barras_finais_do_produto() {
    let mut p = product();
    p.source_prefix = "GLM-L2-LCFA//".into();
    let t = utc(2024, Month::December, 31, 0, 0, 0, 0);
    assert_eq!(
        source_hour_prefix(&p, momento(t)),
        "GLM-L2-LCFA/2024/366/00/"
    );
}

#[test]
fn prefix_antes_da_epoca() {
    let t = utc(1969, Month::December, 31, 23, 59, 59, 999);
    assert_eq!(
        source_hour_prefix(&product(), momento(t)),
        "ABI-L2-CMIPF/1969/365/23/"
    );
}

#[test]
fn horas_vizinhas_tem_prefixos_diferentes() {
    let t = utc(2026, Month::January, 1, 0, 10, 0, 0);
    let antes = t - time::Duration::hours(1);
    let a = source_hour_prefix(&product(), momento(t));
    let b = source_hour_prefix(&product(), momento(antes));
    assert_eq!(a, "ABI-L2-CMIPF/2026/001/00/");
    assert_eq!(b, "ABI-L2-CMIPF/2025/365/23/");
}

#[test]
fn dest_key_reaproveita_data_e_troca_extensao() {
    let src = "ABI-L2-CMIPF/2026/149/14/OR_ABI-L2-CMIPF-M6C13_G19_s20261491400208_e20261491409516_c20261491409571.nc";
    assert_eq!(
        dest_pmtiles_key(&product(), "goes19-tiles", src),
        "goes19-tiles/goes19/abi-l2-cmipf-c13/2026/149/14/\
         OR_ABI-L2-CMIPF-M6C13_G19_s20261491400208_e20261491409516_c20261491409571.pmtiles"
    );
}

#[test]
fn dest_key_sem_prefixo_raiz() {
    let src = "ABI-L2-CMIPF/2026/149/14/OR_x_C13_.nc";
    assert_eq!(
        dest_pmtiles_key(&product(), "", src),
        "goes19/abi-l2-cmipf-c13/2026/149/14/OR_x_C13_.pmtiles"
    );
}

#[test]
fn dest_key_de_objetos_diferentes_e_diferente() {
    let a = dest_pmtiles_key(&product(), "x", "P/2026/149/14/a.nc");
    let b = dest_pmtiles_key(&product(), "x", "P/2026/149/15/a.nc");
    let c = dest_pmtiles_key(&product(), "x", "P/2026/149/14/b.nc");
    assert_eq!(a, "x/goes19/abi-l2-cmipf-c13/2026/149/14/a.pmtiles");
    assert_ne!(a, b);
    assert_ne!(a, c);
}

#[test]
fn parse_times_extrai_inicio_e_fim() {
    let name = "OR_ABI-L2-CMIPF-M6C13_G19_s20261491400208_e20261491409516_c20261491409571.nc";
    let (inicio, fim) = parse_frame_times(name);
    // dia juliano 149 de 2026 = 29/05; último dígito = décimo de segundo.
    assert_eq!(
        inicio,
        Some(momento(utc(2026, Month::May, 29, 14, 0, 20, 800)))
    );
    assert_eq!(
        fim,
        Some(momento(utc(2026, Month::May, 29, 14, 9, 51, 600)))
    );
}

#[test]
fn parse_times_sem_tokens_retorna_none() {
    let (inicio, fim) = parse_frame_times("arquivo_qualquer.nc");
    assert!(inicio.is_none() && fim.is_none());
}

#[test]
fn parse_nodd_time_rejeita_lixo() {
    assert!(parse_nodd_time("20261491400208").is_some());
    assert!(parse_nodd_time("abc").is_none());
    assert!(parse_nodd_time("2026149").is_none()); // curto demais
}

#[test]
fn parse_nodd_time_recusa_data_e_hora_impossiveis() {
    // 2026 não é bissexto; 2024 é.
    assert!(parse_nodd_time("20263661400208").is_none());
    assert_eq!(
        parse_nodd_time("20243661400208"),
        Some(momento(utc(2024, Month::December, 31, 14, 0, 20, 800)))
    );
    assert!(parse_nodd_time("20260001400208").is_none());
    assert!(parse_nodd_time("20261492400208").is_none());
    assert!(parse_nodd_time("20261491460208").is_none());
    assert!(parse_nodd_time("20261491400608").is_none());
}

#[test]
fn parse_nodd_time_sem_decimo() {
    assert_eq!(
        parse_nodd_time("2026149140020"),
        Some(momento(utc(2026, Month::May, 29, 14, 0, 20, 0)))
    );
}

#[test]
fn vale_o_primeiro_token_que_traz_tempo() {
    let (inicio, fim) =
        parse_frame_times("s_sabc_s20261491400208_s20271491400208_e20261491409516.nc");
    assert_eq!(
        inicio,
        Some(momento(utc(2026, Month::May, 29, 14, 0, 20, 800)))
    );
    assert_eq!(
        fim,
        Some(momento(utc(2026, Month::May, 29, 14, 9, 51, 600)))
    );
}
