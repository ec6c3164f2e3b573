use coletor_imagem_radar::config::{
    Config, DestinationConfig, GrpcConfig, PipelineConfig, SourceConfig,
};
use coletor_imagem_radar::entity;
use coletor_imagem_radar::momento::Momento;
use coletor_imagem_radar::query::{CondicaoFrame, CondicaoRaio, Ordem};
use coletor_imagem_radar::raio::raios;
use coletor_imagem_radar::serve::{
    assinatura, decode_cursor, encode_cursor, from_proto_ts, modelo_para_frame, modelo_para_raio,
    responde_frames, responde_raios, to_proto_ts, CatalogoService, Falha, ListarFramesRequest,
    ListarRaiosRequest, Timestamp, UltimoFrameRequest,
};
use time::{Date, Month, OffsetDateTime, UtcOffset};

fn momento(t: OffsetDateTime) -> Momento {
    Momento {
        nanos: t.unix_timestamp_nanos(),
        deslocamento: t.offset().whole_seconds(),
    }
}

fn utc(ano: i32, mes: Month, dia: u8, h: u8, m: u8, s: u8, ms: u16) -> OffsetDateTime {
    Date::from_calendar_date(ano, mes, dia)
        .unwrap()
        .with_hms_milli(h, m, s, ms)
        .unwrap()
        .assume_utc()
}

fn servico() -> CatalogoService {
    CatalogoService {
        url_ttl_secs: 3600,
        limite_pagina: 500,
    }
}

fn linha(chave: &str, inicio: Momento) -> entity::Model {
    entity::Model {
        fonte: "noaa-goes-19".into(),
        produto: "abi-l2-cmipf-c13".into(),
        canal: Some("C13".into()),
        chave_origem: chave.into(),
        chave_destino: "goes19/x.pmtiles".into(),
        tamanho_bytes: 42,
        inicio,
        fim: None,
        processado_em: inicio,
    }
}

fn pede_frames() -> ListarFramesRequest {
    ListarFramesRequest {
        produto: "abi-l2-cmipf-c13".into(),
        canal: None,
        fonte: None,
        de: None,
        ate: None,
        limite: 0,
        cursor: None,
    }
}

fn pede_raios() -> ListarRaiosRequest<f64> {
    ListarRaiosRequest {
        fonte: None,
        oeste: None,
        sul: None,
        leste: None,
        norte: None,
        de: None,
        ate: None,
        qualidade_max: None,
        limite: 0,
        cursor: None,
    }
}

#[test]
fn timestamp_round_trip() {
    let t = utc(2026, Month::May, 29, 14, 0, 20, 800);
    let back = from_proto_ts(&to_proto_ts(momento(t))).unwrap();
    assert_eq!(back, momento(t));
}

#[test]
fn cursor_round_trip() {
    let t = utc(2026, Month::May, 29, 14, 9, 51, 600);
    assert_eq!(decode_cursor(&encode_cursor(momento(t))), Some(momento(t)));
}

#[test]
fn cursor_invalido_retorna_none() {
    assert_eq!(decode_cursor("abc"), None);
    assert_eq!(decode_cursor(""), None);
}

#[test]
fn timestamp_antes_da_epoca_arredonda_para_baixo() {
    let t = utc(1969, Month::December, 31, 23, 59, 59, 750);
    let ts = to_proto_ts(momento(t));
    assert_eq!(
        ts,
        Timestamp {
            seconds: -1,
            nanos: 750_000_000
        }
    );
    assert_eq!(from_proto_ts(&ts), Some(momento(t)));
}

#[test]
fn timestamp_de_outro_fuso_volta_em_utc() {
    let t = utc(2026, Month::May, 29, 14, 0, 0, 0)
        .to_offset(UtcOffset::from_hms(-3, 0, 0).unwrap());
    let volta = from_proto_ts(&to_proto_ts(momento(t))).unwrap();
    assert_eq!(volta.nanos, momento(t).nanos);
    assert_eq!(volta.deslocamento, 0);
}

#[test]
fn timestamp_fora_de_faixa() {
    assert_eq!(
        from_proto_ts(&Timestamp {
            seconds: i64::MAX,
            nanos: 0
        }),
        None
    );
    // 9999-12-31T23:59:59.999999999Z é o último instante.
    assert!(from_proto_ts(&Timestamp {
        seconds: 253_402_300_799,
        nanos: 999_999_999
    })
    .is_some());
    assert!(from_proto_ts(&Timestamp {
        seconds: 253_402_300_800,
        nanos: 0
    })
    .is_none());
}

#[test]
fn cursor_e_os_nanossegundos_em_decimal() {
    let t = utc(2026, Month::May, 29, 14, 0, 20, 800);
    assert_eq!(encode_cursor(momento(t)), "1780063220800000000");
    assert_eq!(
        decode_cursor("+1780063220800000000"),
        Some(momento(t))
    );
    assert_eq!(decode_cursor("-").is_none(), true);
    assert_eq!(decode_cursor(" 1"), None);
    assert_eq!(decode_cursor("999999999999999999999999999999999999999999"), None);
    assert_eq!(decode_cursor("377705116800000000000"), None);
}

#[test]
fn servidor_segue_a_configuracao() {
    let c = Config {
        source: SourceConfig {
            bucket: "o".into(),
            region: "r".into(),
        },
        destination: DestinationConfig {
            bucket: "d".into(),
            region: "r".into(),
            local_path: None,
            prefix: "".into(),
        },
        products: vec![],
        pipeline: PipelineConfig::default(),
        database: None,
        grpc: GrpcConfig::default(),
    };
    let s = CatalogoService::novo(&c);
    assert_eq!((s.url_ttl_secs, s.limite_pagina), (3600, 500));
}

#[test]
fn ultimo_frame_exige_produto() {
    let r = servico().ultimo_frame(&UltimoFrameRequest {
        produto: "".into(),
        canal: None,
        fonte: None,
    });
    let e = r.unwrap_err();
    assert_eq!(e, Falha::ProdutoObrigatorio);
    assert_eq!(e.mensagem(), "produto é obrigatório");
    assert!(e.do_argumento());
}

#[test]
fn ultimo_frame_consulta_uma_linha_do_produto() {
    let c = servico()
        .ultimo_frame(&UltimoFrameRequest {
            produto: "p".into(),
            canal: Some("C13".into()),
            fonte: None,
        })
        .unwrap();
    assert_eq!(c.limite, 1);
    assert_eq!(c.ordem, Ordem::Decrescente);
    assert_eq!(c.condicoes.len(), 3);
    assert!(matches!(&c.condicoes[0], CondicaoFrame::Fonte(f) if f == "noaa-goes-19"));
    assert!(matches!(&c.condicoes[1], CondicaoFrame::Produto(p) if p == "p"));
    assert!(matches!(&c.condicoes[2], CondicaoFrame::Canal(p) if p == "C13"));
}

#[test]
fn ultimo_frame_que_nao_ha() {
    let e = servico().frame_achado(None).unwrap_err();
    assert_eq!(e, Falha::NenhumFrame);
    assert_eq!(e.mensagem(), "nenhum frame para o produto/canal");
    assert!(!e.do_argumento());
    let m = linha("a", momento(utc(2026, Month::May, 29, 14, 0, 0, 0)));
    assert_eq!(servico().frame_achado(Some(m)).unwrap().chave_origem, "a");
}

#[test]
fn listar_frames_recusa_produto_vazio_antes_do_cursor() {
    let mut req = pede_frames();
    req.cursor = Some("abc".into());
    assert_eq!(
        servico().listar_frames(&req).unwrap_err(),
        Falha::CursorInvalido
    );
    req.produto = "".into();
    assert_eq!(
        servico().listar_frames(&req).unwrap_err(),
        Falha::ProdutoObrigatorio
    );
    assert_eq!(Falha::CursorInvalido.mensagem(), "cursor inválido");
}

#[test]
fn listar_frames_capa_o_limite() {
    let mut req = pede_frames();
    assert_eq!(servico().listar_frames(&req).unwrap().limite, 500);
    req.limite = 7;
    assert_eq!(servico().listar_frames(&req).unwrap().limite, 7);
    req.limite = 501;
    assert_eq!(servico().listar_frames(&req).unwrap().limite, 500);
}

#[test]
fn listar_frames_monta_a_janela_e_o_cursor() {
    let t = momento(utc(2026, Month::May, 29, 14, 0, 20, 800));
    let mut req = pede_frames();
    req.fonte = Some("outra".into());
    req.de = Some(to_proto_ts(t));
    req.ate = Some(Timestamp {
        seconds: i64::MAX,
        nanos: 0,
    });
    req.cursor = Some(encode_cursor(t));
    let c = servico().listar_frames(&req).unwrap();
    assert_eq!(c.ordem, Ordem::Decrescente);
    // O lado fora de faixa não limita nada.
    assert_eq!(c.condicoes.len(), 4);
    assert!(matches!(&c.condicoes[0], CondicaoFrame::Fonte(f) if f == "outra"));
    assert!(matches!(&c.condicoes[2], CondicaoFrame::Desde(x) if *x == t));
    assert!(matches!(&c.condicoes[3], CondicaoFrame::Antes(x) if *x == t));
}

#[test]
fn listar_raios_so_usa_o_bbox_completo() {
    let mut req = pede_raios();
    req.oeste = Some(-60.0);
    req.sul = Some(-30.0);
    req.leste = Some(-40.0);
    let c = servico().listar_raios(&req).unwrap();
    assert_eq!(c.condicoes.len(), 2);
    assert_eq!(c.ordem, Ordem::Decrescente);
    assert!(matches!(&c.condicoes[1], CondicaoRaio::QualidadeAte(0)));
    req.norte = Some(-10.0);
    req.qualidade_max = Some(5);
    let c = servico().listar_raios(&req).unwrap();
    assert_eq!(c.condicoes.len(), 4);
    assert!(matches!(&c.condicoes[1], CondicaoRaio::QualidadeAte(5)));
    assert!(matches!(&c.condicoes[2], CondicaoRaio::LonEntre(a, b) if *a == -60.0 && *b == -40.0));
    assert!(matches!(&c.condicoes[3], CondicaoRaio::LatEntre(a, b) if *a == -30.0 && *b == -10.0));
}

#[test]
fn listar_raios_recusa_cursor_invalido() {
    let mut req = pede_raios();
    req.cursor = Some("x".into());
    assert_eq!(
        servico().listar_raios(&req).unwrap_err(),
        Falha::CursorInvalido
    );
}

#[test]
fn qualidade_max_grande_aceita_toda_qualidade() {
    for q in [32_767, 32_768, 65_535, u32::MAX] {
        let mut req = pede_raios();
        req.qualidade_max = Some(q);
        let c = servico().listar_raios(&req).unwrap();
        assert!(matches!(&c.condicoes[1], CondicaoRaio::QualidadeAte(32_767)));
    }
}

#[test]
fn assinatura_expira_depois_da_validade() {
    let agora = momento(utc(2026, Month::May, 29, 14, 0, 0, 0));
    let (url, expira) = assinatura(Some("https://x".into()), agora, 3600);
    assert_eq!(url, "https://x");
    assert_eq!(
        expira,
        Some(momento(utc(2026, Month::May, 29, 15, 0, 0, 0)))
    );
    let (url, expira) = assinatura(None, agora, 3600);
    assert_eq!(url, "");
    assert_eq!(expira, None);
}

#[test]
fn frame_traz_os_campos_da_linha() {
    let t = momento(utc(2026, Month::May, 29, 14, 0, 20, 800));
    let m = linha("k.nc", t);
    let f = modelo_para_frame(&m, &("https://x".to_string(), Some(t)));
    assert_eq!(f.fonte, "noaa-goes-19");
    assert_eq!(f.produto, "abi-l2-cmipf-c13");
    assert_eq!(f.canal.as_deref(), Some("C13"));
    assert_eq!(f.chave_origem, "k.nc");
    assert_eq!(f.chave_destino, "goes19/x.pmtiles");
    assert_eq!(f.tamanho_bytes, 42);
    assert_eq!(f.inicio, Some(to_proto_ts(t)));
    assert_eq!(f.fim, None);
    assert_eq!(f.processado_em, Some(to_proto_ts(t)));
    assert_eq!(f.url, "https://x");
    assert_eq!(f.url_expira_em, Some(to_proto_ts(t)));
}

#[test]
fn pagina_cheia_da_cursor() {
    let t0 = momento(utc(2026, Month::May, 29, 14, 10, 0, 0));
    let t1 = momento(utc(2026, Month::May, 29, 14, 0, 0, 0));
    let modelos = vec![linha("a", t0), linha("b", t1)];
    let assinadas = vec![("u".to_string(), None), ("v".to_string(), None)];
    let r = responde_frames(&modelos, &assinadas, 2);
    assert_eq!(r.frames.len(), 2);
    assert_eq!(r.frames[1].url, "v");
    assert_eq!(r.proximo_cursor, Some(encode_cursor(t1)));
    assert_eq!(decode_cursor(&r.proximo_cursor.unwrap()), Some(t1));
    let r = responde_frames(&modelos, &assinadas, 3);
    assert_eq!(r.proximo_cursor, None);
    let r = responde_frames(&vec![], &vec![], 0);
    assert_eq!(r.proximo_cursor, None);
}

#[test]
fn raios_trafegam_inline() {
    let t = momento(utc(2026, Month::May, 29, 14, 0, 0, 250));
    let m = raios::Model {
        fonte: "noaa-goes-19".to_string(),
        chave_origem: "k.nc".to_string(),
        flash_id: 9,
        tempo: t,
        lat: -23.5,
        lon: -46.6,
        energia: Some(1e-15),
        area: None,
        qualidade: 3,
    };
    let r = modelo_para_raio(&m);
    assert_eq!(r.tempo, Some(to_proto_ts(t)));
    assert_eq!((r.lat, r.lon), (-23.5, -46.6));
    assert_eq!(r.energia, Some(1e-15));
    assert_eq!(r.area, None);
    assert_eq!(r.qualidade, 3);
    let p = responde_raios(&vec![m], 1);
    assert_eq!(p.raios.len(), 1);
    assert_eq!(p.proximo_cursor, Some(encode_cursor(t)));
}

#[test]
fn seguir_o_cursor_ve_cada_frame_uma_vez() {
    let base = utc(2026, Month::May, 29, 14, 0, 0, 0);
    let tabela: Vec<entity::Model> = (0..5)
        .map(|i| {
            let t = base + time::Duration::minutes(10 * i);
            linha(&format!("k{i}"), momento(t))
        })
        .collect();
    let mut req = pede_frames();
    req.limite = 2;
    let mut vistas: Vec<String> = Vec::new();
    loop {
        let c = servico().listar_frames(&req).unwrap();
        let mut pagina: Vec<entity::Model> = tabela
            .iter()
            .filter(|m| {
                c.condicoes.iter().all(|cond| match cond {
                    CondicaoFrame::Fonte(s) => m.fonte == *s,
                    CondicaoFrame::Produto(s) => m.produto == *s,
                    CondicaoFrame::Canal(s) => m.canal.as_deref() == Some(s.as_str()),
                    CondicaoFrame::Desde(t) => m.inicio.nanos >= t.nanos,
                    CondicaoFrame::Ate(t) => m.inicio.nanos <= t.nanos,
                    CondicaoFrame::Antes(t) => m.inicio.nanos < t.nanos,
                })
            })
            .cloned()
            .collect();
        pagina.sort_by_key(|m| -m.inicio.nanos);
        pagina.truncate(c.limite as usize);
        let assinadas = pagina.iter().map(|_| (String::new(), None)).collect();
        let r = responde_frames(&pagina, &assinadas, c.limite);
        vistas.extend(r.frames.iter().map(|f| f.chave_origem.clone()));
        match r.proximo_cursor {
            Some(x) => req.cursor = Some(x),
            None => break,
        }
    }
    assert_eq!(vistas, vec!["k4", "k3", "k2", "k1", "k0"]);
}

#[test]
fn seguir_o_cursor_ve_cada_raio_uma_vez() {
    let base = utc(2026, Month::May, 29, 14, 0, 0, 0);
    let tabela: Vec<raios::Model<f64>> = (0..4)
        .map(|i| raios::Model {
            fonte: "noaa-goes-19".to_string(),
            chave_origem: "k.nc".to_string(),
            flash_id: i,
            tempo: momento(base + time::Duration::milliseconds(i as i64)),
            lat: -10.0,
            lon: -50.0 + i as f64,
            energia: None,
            area: None,
            qualidade: 0,
        })
        .collect();
    let mut req = pede_raios();
    req.limite = 3;
    req.oeste = Some(-50.0);
    req.sul = Some(-20.0);
    req.leste = Some(-47.5);
    req.norte = Some(0.0);
    let mut vistos: Vec<f64> = Vec::new();
    loop {
        let c = servico().listar_raios(&req).unwrap();
        let mut pagina: Vec<raios::Model<f64>> = tabela
            .iter()
            .filter(|m| {
                c.condicoes.iter().all(|cond| match cond {
                    CondicaoRaio::Fonte(s) => m.fonte == *s,
                    CondicaoRaio::QualidadeAte(q) => m.qualidade <= *q,
                    CondicaoRaio::LonEntre(a, b) => *a <= m.lon && m.lon <= *b,
                    CondicaoRaio::LatEntre(a, b) => *a <= m.lat && m.lat <= *b,
                    CondicaoRaio::Desde(t) => m.tempo.nanos >= t.nanos,
                    CondicaoRaio::Ate(t) => m.tempo.nanos <= t.nanos,
                    CondicaoRaio::Antes(t) => m.tempo.nanos < t.nanos,
                })
            })
            .cloned()
            .collect();
        pagina.sort_by_key(|m| -m.tempo.nanos);
        pagina.truncate(c.limite as usize);
        let r = responde_raios(&pagina, c.limite);
        vistos.extend(r.raios.iter().map(|f| f.lon));
        match r.proximo_cursor {
            Some(x) => req.cursor = Some(x),
            None => break,
        }
    }
    assert_eq!(vistos, vec![-48.0, -49.0, -50.0]);
}
