use coletor_imagem_radar::glm::{
    cobre_os_flashes, ler_escalado, ler_qualidade, ler_u16_como_i32, parse_flashes,
    CoordenadasDivergem, Variaveis,
};
use coletor_imagem_radar::momento::Momento;

fn decode(raw: i16, scale: f64, offset: f64, fill: Option<f64>) -> Option<f64> {
    coletor_imagem_radar::glm::decode(
        raw,
        &|x: i16| fill.is_some_and(|f| f == x as f64),
        &|u: u16| u as f64 * scale + offset,
    )
}

fn ate(a: f64, b: f64) -> bool {
    a <= b
}

fn em_nanos(s: f64) -> i128 {
    time::Duration::seconds_f64(s).whole_nanoseconds()
}

const BBOX: [f64; 4] = [-100.0, -56.0, -20.0, 13.0];

fn inicio() -> Momento {
    Momento {
        nanos: 1_780_660_800_000_000_000,
        deslocamento: 0,
    }
}

fn arquivo() -> Variaveis<f64> {
    Variaveis {
        lat: vec![-23.5, 40.0, -10.0, 13.0],
        lon: vec![-46.6, -46.6, -101.0, -100.0],
        ids: vec![1, 2, 3, 4],
        qualidade: vec![0, 1, 3, 5],
        energia: vec![Some(1e-15), Some(2e-15), None, None],
        area: vec![Some(7.0)],
        toff: vec![Some(-5.0), Some(1.0), Some(2.0), None],
    }
}

#[test]
fn fill_value_vira_none() {
    // _FillValue = -1 (short). Raw -1 ⇒ None, mesmo com escala.
    assert_eq!(decode(-1, 9.99996e-16, 2.8515e-16, Some(-1.0)), None);
}

#[test]
fn unsigned_acima_de_32767_nao_fica_negativo() {
    // 40000 cabe em u16 mas estoura i16 (vira negativo). Reinterpretado deve
    // dar 40000, não -25536.
    let raw = 40000u16 as i16; // = -25536
    let v = decode(raw, 1.0, 0.0, None).unwrap();
    assert_eq!(v, 40000.0);
}

#[test]
fn time_offset_negativo_pelo_add_offset() {
    // add_offset = -5: raw 0 ⇒ -5s (buffer de pré-janela do produto).
    let v = decode(0, 0.0003814756, -5.0, None).unwrap();
    assert!((v + 5.0).abs() < 1e-9);
}

#[test]
fn energia_escala_aplicada() {
    let v = decode(100, 9.99996e-16, 2.8515e-16, Some(-1.0)).unwrap();
    assert!((v - (100.0 * 9.99996e-16 + 2.8515e-16)).abs() < 1e-25);
}

#[test]
fn variavel_escalada_inteira() {
    let r = ler_escalado(
        &vec![-1, 0, 2, -2],
        &|x: i16| x == -1,
        &|u: u16| u as f64 * 0.5,
    );
    assert_eq!(r, vec![None, Some(0.0), Some(1.0), Some(32767.0)]);
}

#[test]
fn ids_sem_sinal() {
    assert_eq!(
        ler_u16_como_i32(&vec![0, 1, -1, i16::MIN]),
        vec![0, 1, 65535, 32768]
    );
}

#[test]
fn qualidade_conserva_os_bits() {
    assert_eq!(ler_qualidade(&vec![0, 1, 3, 5, -1]), vec![0, 1, 3, 5, -1]);
}

#[test]
fn flashes_clipados_na_ordem_do_arquivo() {
    let fs = parse_flashes(&arquivo(), inicio(), BBOX, &ate, &em_nanos).unwrap();
    let ids: Vec<i32> = fs.iter().map(|f| f.flash_id).collect();
    // O 2º está ao norte, o 3º a oeste; o 4º está na borda, que é dentro.
    assert_eq!(ids, vec![1, 4]);
    assert_eq!((fs[0].lat, fs[0].lon), (-23.5, -46.6));
    assert_eq!(fs[0].energia, Some(1e-15));
    assert_eq!(fs[0].area, Some(7.0));
    assert_eq!(fs[0].qualidade, 0);
    assert_eq!(fs[1].energia, None);
    assert_eq!(fs[1].area, None);
    assert_eq!(fs[1].qualidade, 5);
}

#[test]
fn tempo_do_flash_e_o_inicio_mais_o_offset() {
    let fs = parse_flashes(&arquivo(), inicio(), BBOX, &ate, &em_nanos).unwrap();
    assert_eq!(fs[0].tempo.nanos, inicio().nanos - 5_000_000_000);
    assert_eq!(fs[1].tempo, inicio());
}

#[test]
fn coordenadas_divergentes() {
    let mut v = arquivo();
    v.lon.push(-50.0);
    let e = parse_flashes(&v, inicio(), BBOX, &ate, &em_nanos).unwrap_err();
    assert_eq!(e, CoordenadasDivergem { lat: 4, lon: 5 });
    assert_eq!(e.mensagem(), "flash_lat (4) e flash_lon (5) divergem");
}

#[test]
fn ponto_sem_coordenada_nao_fica() {
    for (lat, lon) in [(f64::NAN, -46.6), (-23.5, f64::NAN), (f64::NAN, f64::NAN)] {
        let mut v = arquivo();
        v.lat = vec![lat];
        v.lon = vec![lon];
        let fs = parse_flashes(&v, inicio(), BBOX, &ate, &em_nanos).unwrap();
        assert!(fs.is_empty());
    }
}

#[test]
fn todo_flash_que_fica_cai_no_bbox() {
    let mut v = arquivo();
    v.lat = vec![-56.0, 13.0, -56.1, 13.1, 0.0, 0.0];
    v.lon = vec![-100.0, -20.0, -50.0, -50.0, -100.1, -19.9];
    v.ids = vec![1, 2, 3, 4, 5, 6];
    v.qualidade = vec![0; 6];
    let fs = parse_flashes(&v, inicio(), BBOX, &ate, &em_nanos).unwrap();
    assert_eq!(fs.iter().map(|f| f.flash_id).collect::<Vec<i32>>(), vec![1, 2]);
    for f in &fs {
        assert!(f.lon >= -100.0 && f.lon <= -20.0);
        assert!(f.lat >= -56.0 && f.lat <= 13.0);
    }
}

#[test]
fn variaveis_curtas_so_importam_dentro_do_bbox() {
    let mut v = arquivo();
    v.ids = vec![1];
    assert!(!cobre_os_flashes(&v, BBOX, &ate));
    v.lon[3] = 0.0;
    assert!(cobre_os_flashes(&v, BBOX, &ate));
    let fs = parse_flashes(&v, inicio(), BBOX, &ate, &em_nanos).unwrap();
    assert_eq!(fs.len(), 1);
}

#[test]
fn arquivo_sem_flash() {
    let v: Variaveis<f64> = Variaveis {
        lat: vec![],
        lon: vec![],
        ids: vec![],
        qualidade: vec![],
        energia: vec![],
        area: vec![],
        toff: vec![],
    };
    assert!(parse_flashes(&v, inicio(), BBOX, &ate, &em_nanos)
        .unwrap()
        .is_empty());
}

#[test]
fn bbox_inteiro_e_o_das_grandezas() {
    for i in 0..4 {
        assert_eq!(coletor_imagem_radar::BBOX[i] as f64, BBOX[i]);
    }
}
