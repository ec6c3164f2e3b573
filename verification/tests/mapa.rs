use coletor_imagem_radar::serve::{ListarRaiosRequest, Timestamp};
use coletor_imagem_radar::visor::{
    escapar_json, janela_frames, janela_raios, millis, ColetaFrames, ColetaRaios, Fundo, Ponto,
};

fn ts(seconds: i64, nanos: i32) -> Option<Timestamp> {
    Some(Timestamp { seconds, nanos })
}

fn ponto(energia: Option<f64>) -> Ponto {
    Ponto {
        tempo: ts(1_780_063_220, 800_000_000),
        lon: format!("{:.4}", -46.63333f64),
        lat: format!("{:.4}", -23.55f64),
        qualidade: 3,
        energia: energia.map(|v| format!("{v:.3e}")),
    }
}

#[test]
fn janela_recua_os_minutos() {
    assert_eq!(janela_raios(10_000, 7, 2), ts(9_880, 7));
    assert_eq!(janela_frames(10_000, 7, 2), ts(8_380, 7));
    assert_eq!(janela_raios(120, 0, 2), ts(0, 0));
    assert_eq!(janela_raios(119, 999_999_999, 2), None);
    assert_eq!(janela_frames(100, 0, 0), None);
}

#[test]
fn milissegundos() {
    assert_eq!(millis(&ts(1_780_063_220, 800_999_999)), 1_780_063_220_800);
    assert_eq!(millis(&ts(-1, 750_000_000)), -250);
    assert_eq!(millis(&ts(0, -1_999_999)), -1);
    assert_eq!(millis(&None), 0);
}

#[test]
fn escape_de_json() {
    assert_eq!(escapar_json(r#"a\b"c"#), r#"a\\b\"c"#);
    assert_eq!(escapar_json("https://x/y?z=1"), "https://x/y?z=1");
    assert_eq!(escapar_json(""), "");
}

#[test]
fn geojson_dos_raios() {
    let mut c = ColetaRaios::nova();
    assert!(!c.recebe(&vec![ponto(Some(1.5e-15)), ponto(None)], None));
    assert_eq!(
        c.documento(1_780_063_221_000, 180),
        r#"{"type":"FeatureCollection","gerado":1780063221000,"janela_min":180,"total":2,"features":[{"type":"Feature","geometry":{"type":"Point","coordinates":[-46.6333,-23.5500]},"properties":{"t":1780063220800,"q":3,"e":1.500e-15}},{"type":"Feature","geometry":{"type":"Point","coordinates":[-46.6333,-23.5500]},"properties":{"t":1780063220800,"q":3,"e":null}}]}"#
    );
}

#[test]
fn geojson_vazio() {
    let c = ColetaRaios::nova();
    assert_eq!(
        c.documento(5, 1),
        r#"{"type":"FeatureCollection","gerado":5,"janela_min":1,"total":0,"features":[]}"#
    );
}

#[test]
fn coleta_de_raios_segue_o_cursor() {
    let mut c = ColetaRaios::nova();
    let de = Timestamp {
        seconds: 1,
        nanos: 2,
    };
    let p: ListarRaiosRequest<f64> = c.pedido(de, Some(1));
    assert_eq!(p.de, Some(de));
    assert_eq!(p.qualidade_max, Some(1));
    assert_eq!((p.limite, p.cursor), (0, None));
    assert!(p.oeste.is_none() && p.fonte.is_none() && p.ate.is_none());
    assert!(c.recebe(&vec![ponto(None)], Some("99".into())));
    let p: ListarRaiosRequest<f64> = c.pedido(de, None);
    assert_eq!(p.cursor.as_deref(), Some("99"));
}

#[test]
fn coleta_de_raios_para_no_teto() {
    let mut c = ColetaRaios::nova();
    for _ in 0..499 {
        assert!(c.recebe(&vec![], Some("1".into())));
    }
    assert!(!c.recebe(&vec![], Some("1".into())));
}

#[test]
fn json_dos_frames_pula_os_sem_url() {
    let mut c = ColetaFrames::nova();
    let p = c.pedido(
        "abi-l2-cmipf-c13",
        Timestamp {
            seconds: 5,
            nanos: 0,
        },
    );
    assert_eq!(p.produto, "abi-l2-cmipf-c13");
    assert_eq!(p.de, ts(5, 0));
    assert_eq!((p.limite, p.cursor, p.canal), (0, None, None));
    let frames = vec![
        Fundo {
            inicio: ts(1, 0),
            url: "https://x/\"a".into(),
        },
        Fundo {
            inicio: ts(2, 0),
            url: "".into(),
        },
        Fundo {
            inicio: None,
            url: "u".into(),
        },
    ];
    assert!(c.recebe(&frames, Some("7".into())));
    assert!(!c.recebe(&vec![], None));
    assert_eq!(
        c.documento(),
        r#"[{"t":1000,"url":"https://x/\"a"},{"t":0,"url":"u"}]"#
    );
}

#[test]
fn coleta_de_frames_para_no_teto() {
    let mut c = ColetaFrames::nova();
    for _ in 0..49 {
        assert!(c.recebe(&vec![], Some("1".into())));
    }
    assert!(!c.recebe(&vec![], Some("1".into())));
    assert_eq!(c.documento(), "[]");
}
